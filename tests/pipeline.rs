use bookfactory::config::{
    BuildError, Epub2Config, Itemref, Label, ManifestItem, Metadata, NavMap, NavPoint, NavTarget,
    NavList, NcxMeta, NonmanifestFile, PageTarget, Reference, Rootfile,
};
use bookfactory::metadata::{DcElement, MetadataEntry};
use bookfactory::package::{plan_epub2, plan_epub2_with, EntryContent, EpubPlan};

fn item(id: &str, inside: &str, media_type: &str) -> ManifestItem {
    ManifestItem {
        outside_path: format!("src/{}", inside),
        inside_path_from_opf: inside.to_string(),
        media_type: media_type.to_string(),
        id: id.to_string(),
        fallback: None,
        fallback_style: None,
        required_namespace: None,
        required_modules: None,
    }
}

fn xhtml(id: &str, inside: &str) -> ManifestItem {
    item(id, inside, "application/xhtml+xml")
}

fn config(manifest: Vec<ManifestItem>) -> Epub2Config {
    Epub2Config {
        rootfiles: None,
        metadata: None,
        manifest,
        spine: None,
        guide: None,
        ncx_meta: None,
        navmap: None,
        pagelist: None,
        navlists: None,
        nonmanifest_files: None,
    }
}

fn plan(c: &Epub2Config) -> Result<EpubPlan, BuildError> {
    plan_epub2_with(c, "0b5f9a5e-0000-4000-8000-000000000000", &Some("fr".to_string()))
}

fn ok(c: &Epub2Config) -> EpubPlan {
    match plan(c) {
        Ok(p) => p,
        Err(e) => panic!("build failed: {:?}", e),
    }
}

fn err(c: &Epub2Config) -> BuildError {
    match plan(c) {
        Ok(_) => panic!("build succeeded"),
        Err(e) => e,
    }
}

fn simple_point(label: &str, idref: &str, children: Vec<usize>) -> NavPoint {
    NavPoint {
        label: Label::Simple(label.to_string()),
        idref: idref.to_string(),
        fragment: None,
        children,
    }
}

#[test]
fn mimetype_is_first_entry_and_stored() {
    let p = ok(&config(vec![xhtml("c1", "c1.xhtml")]));
    let first = &p.entries[0];
    assert_eq!(first.path, "mimetype");
    assert!(first.always_stored);
    match &first.content {
        EntryContent::Bytes(b) => assert_eq!(b.as_slice(), b"application/epub+zip"),
        _ => panic!("mimetype entry holds no bytes"),
    }
}

#[test]
fn entries_follow_the_planned_order() {
    let mut c = config(vec![xhtml("c1", "text/c1.xhtml")]);
    c.nonmanifest_files = Some(vec![NonmanifestFile {
        outside_path: "fonts/a.otf".to_string(),
        inside_path: "OEBPS/fonts/a.otf".to_string(),
    }]);
    let p = ok(&c);
    let paths: Vec<&str> = p.entries.iter().map(|e| e.path.as_str()).collect();
    assert_eq!(
        paths,
        vec![
            "mimetype",
            "OEBPS/text/c1.xhtml",
            "OEBPS/fonts/a.otf",
            "META-INF/container.xml",
            "OEBPS/content.opf",
            "OEBPS/toc.ncx",
        ]
    );
    assert_eq!(p.entries[1].content, EntryContent::CopyFrom("src/text/c1.xhtml".to_string()));
    assert_eq!(p.entries[2].content, EntryContent::CopyFrom("fonts/a.otf".to_string()));
    assert_eq!(p.entries[3].content, EntryContent::ContainerXml);
    assert_eq!(p.entries[4].content, EntryContent::OpfXml);
    assert_eq!(p.entries[5].content, EntryContent::NcxXml);
}

#[test]
fn case_insensitive_path_collision_fails() {
    let c = config(vec![xhtml("a", "Text/C1.xhtml"), xhtml("b", "text/c1.XHTML")]);
    match err(&c) {
        BuildError::Collision { name } => assert_eq!(name, "OEBPS/text/c1.XHTML"),
        e => panic!("unexpected error {:?}", e),
    }
}

#[test]
fn nonmanifest_file_colliding_with_the_opf_fails() {
    let mut c = config(vec![xhtml("c1", "c1.xhtml")]);
    c.nonmanifest_files = Some(vec![NonmanifestFile {
        outside_path: "x.opf".to_string(),
        inside_path: "oebps/CONTENT.opf".to_string(),
    }]);
    assert!(matches!(err(&c), BuildError::Collision { .. }));
}

#[test]
fn unresolved_spine_idref_fails_naming_it() {
    let mut c = config(vec![xhtml("c1", "c1.xhtml")]);
    c.spine = Some(vec![Itemref::RawIdref("c1".to_string()), Itemref::RawIdref("ghost".to_string())]);
    assert_eq!(err(&c), BuildError::Reference { idref: "ghost".to_string() });
}

#[test]
fn unresolved_guide_idref_fails_naming_it() {
    let mut c = config(vec![xhtml("c1", "c1.xhtml")]);
    c.guide = Some(vec![Reference {
        reference_type: "toc".to_string(),
        title: None,
        idref: "missing".to_string(),
        fragment: None,
    }]);
    assert_eq!(err(&c), BuildError::Reference { idref: "missing".to_string() });
}

#[test]
fn unresolved_navmap_idref_fails_naming_it() {
    let mut c = config(vec![xhtml("c1", "c1.xhtml")]);
    c.navmap = Some(NavMap {
        nodes: vec![simple_point("One", "c1", vec![1]), simple_point("Two", "nowhere", vec![])],
        roots: vec![0],
    });
    assert_eq!(err(&c), BuildError::Reference { idref: "nowhere".to_string() });
}

#[test]
fn unresolved_pagelist_and_navlist_idrefs_fail() {
    let mut c = config(vec![xhtml("c1", "c1.xhtml")]);
    c.pagelist = Some(vec![PageTarget {
        label: Label::Simple("1".to_string()),
        id: "p1".to_string(),
        target_type: "normal".to_string(),
        value: Some("1".to_string()),
        idref: "p-missing".to_string(),
        fragment: None,
    }]);
    assert_eq!(err(&c), BuildError::Reference { idref: "p-missing".to_string() });
    c.pagelist = None;
    c.navlists = Some(vec![NavList {
        label: Label::Simple("Figures".to_string()),
        list: vec![NavTarget {
            label: Label::Simple("Fig 1".to_string()),
            idref: "fig-missing".to_string(),
            fragment: None,
        }],
    }]);
    assert_eq!(err(&c), BuildError::Reference { idref: "fig-missing".to_string() });
}

#[test]
fn identical_builds_with_explicit_identifier_are_equal() {
    let mut c = config(vec![xhtml("c1", "c1.xhtml")]);
    c.metadata = Some(vec![
        Metadata::DcMetadata {
            name: "identifier".to_string(),
            content: "urn:isbn:123".to_string(),
            id: Some("pub-id".to_string()),
            scheme: Some("ISBN".to_string()),
            file_as: None,
            role: None,
            event: None,
            lang: None,
        },
        Metadata::DcMetadata {
            name: "language".to_string(),
            content: "de".to_string(),
            id: None,
            scheme: None,
            file_as: None,
            role: None,
            event: None,
            lang: None,
        },
    ]);
    let first = plan_epub2(&c).unwrap();
    let second = plan_epub2(&c).unwrap();
    assert!(first == second);
    assert_eq!(first.opf.unique_identifier, "pub-id");
    assert_eq!(first.ncx.uid, "pub-id");
}

#[test]
fn builds_without_identifier_differ_only_in_the_uuid() {
    let c = config(vec![xhtml("c1", "c1.xhtml")]);
    let first = plan_epub2(&c).unwrap();
    let second = plan_epub2(&c).unwrap();
    let body = |p: &EpubPlan| match &p.opf.metadata[1] {
        MetadataEntry::Dc { element: DcElement::Identifier, body, .. } => body.clone(),
        other => panic!("unexpected entry {:?}", other),
    };
    assert_ne!(body(&first), body(&second));
    assert_eq!(body(&first).len(), 36);
    assert!(first.entries == second.entries);
    assert!(first.ncx == second.ncx);
    assert!(first.opf.manifest == second.opf.manifest);
    assert!(first.opf.spine == second.opf.spine);
    assert_eq!(first.opf.unique_identifier, "BookId");
}

#[test]
fn default_spine_and_navpoint_for_single_item() {
    let p = ok(&config(vec![xhtml("c1", "text/c1.xhtml")]));
    assert_eq!(p.opf.spine.itemrefs.len(), 1);
    assert_eq!(p.opf.spine.itemrefs[0].idref, "c1");
    assert!(p.opf.spine.itemrefs[0].linear);
    assert_eq!(p.opf.spine.toc, "ncx");
    assert_eq!(p.ncx.navmap.roots, vec![0]);
    assert_eq!(p.ncx.navmap.nodes.len(), 1);
    let node = &p.ncx.navmap.nodes[0];
    assert_eq!(node.labels.len(), 1);
    assert_eq!(node.labels[0].text, "Untitled");
    assert_eq!(node.labels[0].lang, None);
    assert_eq!(node.content, "text/c1.xhtml");
    assert_eq!(node.content, p.opf.manifest[1].href);
}

#[test]
fn duplicate_manifest_id_fails_naming_it() {
    let c = config(vec![xhtml("dup", "a.xhtml"), xhtml("dup", "b.xhtml")]);
    assert_eq!(err(&c), BuildError::Collision { name: "dup".to_string() });
}

#[test]
fn ncx_id_colliding_with_manifest_id_fails() {
    let c = config(vec![xhtml("NCX", "a.xhtml")]);
    assert_eq!(err(&c), BuildError::Collision { name: "ncx".to_string() });
}

#[test]
fn duplicate_page_ids_fail() {
    let mut c = config(vec![xhtml("c1", "c1.xhtml")]);
    let page = |id: &str| PageTarget {
        label: Label::Simple("x".to_string()),
        id: id.to_string(),
        target_type: "normal".to_string(),
        value: None,
        idref: "c1".to_string(),
        fragment: None,
    };
    c.pagelist = Some(vec![page("p1"), page("P1")]);
    assert_eq!(err(&c), BuildError::Collision { name: "P1".to_string() });
}

#[test]
fn ncx_beside_the_item_gets_its_relative_path() {
    let mut c = config(vec![xhtml("ch1", "text/ch1.xhtml")]);
    c.navmap = Some(NavMap { nodes: vec![simple_point("Chapter", "ch1", vec![])], roots: vec![0] });
    let p = ok(&c);
    assert_eq!(p.entries.last().unwrap().path, "OEBPS/toc.ncx");
    assert_eq!(p.ncx.navmap.nodes[0].content, "text/ch1.xhtml");
}

#[test]
fn ncx_in_another_directory_gets_parent_steps() {
    let mut c = config(vec![xhtml("ch1", "text/ch1.xhtml")]);
    c.ncx_meta = Some(NcxMeta {
        manifest_id: Some("toc".to_string()),
        manifest_path_from_opf: Some("nav/deep/toc.ncx".to_string()),
    });
    c.navmap = Some(NavMap {
        nodes: vec![NavPoint {
            label: Label::Simple("Chapter".to_string()),
            idref: "ch1".to_string(),
            fragment: Some("sec2".to_string()),
            children: vec![],
        }],
        roots: vec![0],
    });
    let p = ok(&c);
    assert_eq!(p.entries.last().unwrap().path, "OEBPS/nav/deep/toc.ncx");
    assert_eq!(p.ncx.navmap.nodes[0].content, "../../text/ch1.xhtml#sec2");
    assert_eq!(p.opf.spine.toc, "toc");
    assert_eq!(p.opf.manifest[0].id, "toc");
    assert_eq!(p.opf.manifest[0].href, "nav/deep/toc.ncx");
    assert_eq!(p.opf.manifest[0].media_type, "application/x-dtbncx+xml");
}

#[test]
fn custom_non_opf_rootfile_gets_default_opf_appended() {
    let mut c = config(vec![xhtml("c1", "c1.xhtml")]);
    c.rootfiles = Some(vec![Rootfile {
        path: "extra/book.pdf".to_string(),
        media_type: "application/pdf".to_string(),
    }]);
    let p = ok(&c);
    assert_eq!(p.container.len(), 2);
    assert_eq!(p.container[0].full_path, "extra/book.pdf");
    assert_eq!(p.container[0].media_type, "application/pdf");
    assert_eq!(p.container[1].full_path, "OEBPS/content.opf");
    assert_eq!(p.container[1].media_type, "application/oebps-package+xml");
}

#[test]
fn custom_opf_rootfile_moves_the_opf() {
    let mut c = config(vec![xhtml("c1", "c1.xhtml")]);
    c.rootfiles = Some(vec![Rootfile {
        path: "book/package.opf".to_string(),
        media_type: "application/oebps-package+xml".to_string(),
    }]);
    let p = ok(&c);
    assert_eq!(p.container.len(), 1);
    let paths: Vec<&str> = p.entries.iter().map(|e| e.path.as_str()).collect();
    assert_eq!(paths, vec!["mimetype", "book/c1.xhtml", "META-INF/container.xml", "book/package.opf", "book/toc.ncx"]);
}

#[test]
fn metadata_defaults_fill_title_identifier_language() {
    let p = ok(&config(vec![xhtml("c1", "c1.xhtml")]));
    assert_eq!(p.opf.metadata.len(), 3);
    match &p.opf.metadata[0] {
        MetadataEntry::Dc { element: DcElement::Title, body, .. } => assert_eq!(body, "Untitled"),
        other => panic!("unexpected {:?}", other),
    }
    match &p.opf.metadata[1] {
        MetadataEntry::Dc { element: DcElement::Identifier, body, id, scheme, .. } => {
            assert_eq!(body, "0b5f9a5e-0000-4000-8000-000000000000");
            assert_eq!(id.as_deref(), Some("BookId"));
            assert_eq!(scheme.as_deref(), Some("UUID"));
        }
        other => panic!("unexpected {:?}", other),
    }
    match &p.opf.metadata[2] {
        MetadataEntry::Dc { element: DcElement::Language, body, .. } => assert_eq!(body, "fr"),
        other => panic!("unexpected {:?}", other),
    }
    assert_eq!(p.opf.unique_identifier, "BookId");
    assert_eq!(p.ncx.doc_title, "Untitled");
}

#[test]
fn language_defaults_to_en_without_host_locale() {
    let c = config(vec![xhtml("c1", "c1.xhtml")]);
    let p = plan_epub2_with(&c, "u", &None).unwrap();
    match &p.opf.metadata[2] {
        MetadataEntry::Dc { element: DcElement::Language, body, .. } => assert_eq!(body, "en"),
        other => panic!("unexpected {:?}", other),
    }
}

#[test]
fn safe_uid_skips_taken_ids() {
    let mut c = config(vec![xhtml("bookid", "a.xhtml"), xhtml("BookId_1", "b.xhtml")]);
    c.metadata = Some(vec![Metadata::DcMetadata {
        name: "identifier".to_string(),
        content: "x".to_string(),
        id: None,
        scheme: None,
        file_as: None,
        role: None,
        event: None,
        lang: None,
    }]);
    let p = ok(&c);
    assert_eq!(p.opf.unique_identifier, "BookId_2");
    match &p.opf.metadata[0] {
        MetadataEntry::Dc { element: DcElement::Identifier, id, body, .. } => {
            assert_eq!(id.as_deref(), Some("BookId_2"));
            assert_eq!(body, "x");
        }
        other => panic!("unexpected {:?}", other),
    }
}

#[test]
fn unknown_dublin_core_name_fails() {
    let mut c = config(vec![xhtml("c1", "c1.xhtml")]);
    c.metadata = Some(vec![Metadata::DcMetadata {
        name: "mood".to_string(),
        content: "x".to_string(),
        id: None,
        scheme: None,
        file_as: None,
        role: None,
        event: None,
        lang: None,
    }]);
    assert_eq!(err(&c), BuildError::Schema { name: "mood".to_string() });
}

#[test]
fn metadata_keeps_only_the_attributes_of_its_element() {
    let mut c = config(vec![xhtml("c1", "c1.xhtml")]);
    let dc = |name: &str| Metadata::DcMetadata {
        name: name.to_string(),
        content: "v".to_string(),
        id: Some(format!("{}-id", name)),
        scheme: Some("s".to_string()),
        file_as: Some("f".to_string()),
        role: Some("aut".to_string()),
        event: Some("publication".to_string()),
        lang: Some("en".to_string()),
    };
    c.metadata = Some(vec![
        dc("creator"),
        dc("date"),
        Metadata::CustomMetadata { name: "cover".to_string(), content: "img".to_string() },
    ]);
    let p = ok(&c);
    assert_eq!(
        p.opf.metadata[0],
        MetadataEntry::Dc {
            element: DcElement::Creator,
            body: "v".to_string(),
            id: None,
            scheme: None,
            file_as: Some("f".to_string()),
            role: Some("aut".to_string()),
            event: None,
            lang: Some("en".to_string()),
        }
    );
    assert_eq!(
        p.opf.metadata[1],
        MetadataEntry::Dc {
            element: DcElement::Date,
            body: "v".to_string(),
            id: None,
            scheme: None,
            file_as: None,
            role: None,
            event: Some("publication".to_string()),
            lang: None,
        }
    );
    assert_eq!(
        p.opf.metadata[2],
        MetadataEntry::Meta { name: "cover".to_string(), content: "img".to_string() }
    );
}

#[test]
fn no_spine_eligible_item_fails() {
    let c = config(vec![item("css", "style.css", "text/css")]);
    assert_eq!(err(&c), BuildError::NoSpineItem);
}

#[test]
fn fallback_chain_makes_item_eligible() {
    let mut svg = item("pic", "pic.svg", "image/svg+xml");
    svg.fallback = Some("alt".to_string());
    let c = config(vec![svg, xhtml("alt", "alt.xhtml")]);
    let p = ok(&c);
    assert_eq!(p.opf.spine.itemrefs[0].idref, "pic");
}

#[test]
fn fallback_cycle_fails() {
    let mut a = item("a", "a.svg", "image/svg+xml");
    a.fallback = Some("b".to_string());
    let mut b = item("b", "b.svg", "image/svg+xml");
    b.fallback = Some("a".to_string());
    let c = config(vec![a, b, xhtml("c", "c.xhtml")]);
    assert_eq!(err(&c), BuildError::FallbackCycle { id: "a".to_string() });
}

#[test]
fn spine_without_linear_entry_fails() {
    let mut c = config(vec![xhtml("c1", "c1.xhtml")]);
    c.spine = Some(vec![Itemref::CookedIdref { idref: "c1".to_string(), linear: Some(false) }]);
    assert_eq!(err(&c), BuildError::NoLinearSpineItem);
}

#[test]
fn first_linear_entry_is_the_default_navpoint_target() {
    let mut c = config(vec![xhtml("cover", "cover.xhtml"), xhtml("c1", "text/c1.xhtml")]);
    c.spine = Some(vec![
        Itemref::CookedIdref { idref: "cover".to_string(), linear: Some(false) },
        Itemref::CookedIdref { idref: "c1".to_string(), linear: None },
    ]);
    let p = ok(&c);
    assert!(!p.opf.spine.itemrefs[0].linear);
    assert!(p.opf.spine.itemrefs[1].linear);
    assert_eq!(p.ncx.navmap.nodes[0].content, "text/c1.xhtml");
}

#[test]
fn guide_resolves_hrefs_with_fragments() {
    let mut c = config(vec![xhtml("c1", "text/c1.xhtml")]);
    c.guide = Some(vec![Reference {
        reference_type: "text".to_string(),
        title: Some("Start".to_string()),
        idref: "c1".to_string(),
        fragment: Some("top".to_string()),
    }]);
    let p = ok(&c);
    let g = p.opf.guide.unwrap();
    assert_eq!(g.len(), 1);
    assert_eq!(g[0].href, "text/c1.xhtml#top");
    assert_eq!(g[0].reference_type, "text");
    assert_eq!(g[0].title.as_deref(), Some("Start"));
}

#[test]
fn navmap_tree_keeps_children_and_complex_labels() {
    let mut c = config(vec![xhtml("c1", "c1.xhtml"), xhtml("c2", "sub/c2.xhtml")]);
    c.navmap = Some(NavMap {
        nodes: vec![
            NavPoint {
                label: Label::Complex(vec![
                    bookfactory::config::NavLabel { label: "One".to_string(), lang: Some("en".to_string()) },
                    bookfactory::config::NavLabel { label: "Eins".to_string(), lang: Some("de".to_string()) },
                ]),
                idref: "c1".to_string(),
                fragment: None,
                children: vec![1],
            },
            simple_point("Two", "c2", vec![]),
        ],
        roots: vec![0],
    });
    let p = ok(&c);
    let nodes = &p.ncx.navmap.nodes;
    assert_eq!(nodes[0].children, vec![1]);
    assert_eq!(nodes[0].labels.len(), 2);
    assert_eq!(nodes[0].labels[1].text, "Eins");
    assert_eq!(nodes[0].labels[1].lang.as_deref(), Some("de"));
    assert_eq!(nodes[1].content, "sub/c2.xhtml");
}

#[test]
fn invalid_inside_path_fails() {
    let c = config(vec![xhtml("c1", "text/bad:name.xhtml")]);
    assert_eq!(err(&c), BuildError::Path { path: "OEBPS/text/bad:name.xhtml".to_string() });
}

#[test]
fn default_navpoint_is_relative_to_the_ncx() {
    let mut c = config(vec![xhtml("c1", "text/c1.xhtml")]);
    c.ncx_meta = Some(NcxMeta { manifest_id: None, manifest_path_from_opf: Some("nav/toc.ncx".to_string()) });
    let p = ok(&c);
    assert_eq!(p.ncx.navmap.nodes[0].content, "../text/c1.xhtml");
    assert_eq!(p.opf.manifest[1].href, "text/c1.xhtml");
}

#[test]
fn empty_identifier_id_takes_the_safe_id() {
    let mut c = config(vec![xhtml("c1", "c1.xhtml")]);
    c.metadata = Some(vec![Metadata::DcMetadata {
        name: "identifier".to_string(),
        content: "urn:x".to_string(),
        id: Some(String::new()),
        scheme: None,
        file_as: None,
        role: None,
        event: None,
        lang: None,
    }]);
    let p = ok(&c);
    assert_eq!(p.opf.unique_identifier, "BookId");
    assert_eq!(p.ncx.uid, "BookId");
    match &p.opf.metadata[0] {
        MetadataEntry::Dc { element: DcElement::Identifier, id, body, .. } => {
            assert_eq!(id.as_deref(), Some("BookId"));
            assert_eq!(body, "urn:x");
        }
        other => panic!("unexpected {:?}", other),
    }
}

#[test]
fn copied_file_named_mimetype_collides() {
    let mut c = config(vec![xhtml("c1", "c1.xhtml")]);
    c.nonmanifest_files = Some(vec![NonmanifestFile {
        outside_path: "m".to_string(),
        inside_path: "MimeType".to_string(),
    }]);
    assert_eq!(err(&c), BuildError::Collision { name: "mimetype".to_string() });
}

#[test]
fn id_shared_by_opf_and_page_list_is_accepted() {
    let mut c = config(vec![xhtml("c1", "c1.xhtml")]);
    c.pagelist = Some(vec![PageTarget {
        label: Label::Simple("1".to_string()),
        id: "c1".to_string(),
        target_type: "normal".to_string(),
        value: None,
        idref: "c1".to_string(),
        fragment: None,
    }]);
    let p = ok(&c);
    assert_eq!(p.ncx.pagelist.unwrap()[0].id, "c1");
}

#[test]
fn generated_entries_are_not_forced_stored() {
    let p = ok(&config(vec![xhtml("c1", "c1.xhtml")]));
    let n = p.entries.len();
    assert!(p.entries[n - 3..].iter().all(|e| !e.always_stored));
}
