use bookfactory::config::{
    BuildError, Epub2Config, Itemref, Label, ManifestItem, NavLabel, NavList, NavMap, NavPoint,
    NavTarget, PageTarget, Reference,
};
use bookfactory::ncx::{
    convert_navlist, convert_navpoint, get_navlists, get_navmap, get_ncx_path_to_file_from_idref,
    get_pagelist,
};
use bookfactory::opf::{
    get_guide, get_manifest, get_manifest_path_from_idref, get_spine, id_falls_back_to_types,
};

fn entry(id: &str, inside: &str, media_type: &str, fallback: Option<&str>) -> ManifestItem {
    ManifestItem {
        outside_path: inside.to_string(),
        inside_path_from_opf: inside.to_string(),
        media_type: media_type.to_string(),
        id: id.to_string(),
        fallback: fallback.map(|f| f.to_string()),
        fallback_style: None,
        required_namespace: None,
        required_modules: None,
    }
}

fn book() -> Epub2Config {
    Epub2Config {
        rootfiles: None,
        metadata: None,
        manifest: vec![
            entry("c1", "text/c1.xhtml", "application/xhtml+xml", None),
            entry("img", "images/a.png", "image/png", Some("c1")),
            entry("notes", "notes/n.xhtml", "application/xhtml+xml", None),
        ],
        spine: None,
        guide: None,
        ncx_meta: None,
        navmap: None,
        pagelist: None,
        navlists: None,
        nonmanifest_files: None,
    }
}

fn types(v: &[&str]) -> Vec<String> {
    v.iter().map(|s| s.to_string()).collect()
}

#[test]
fn manifest_path_from_idref() {
    let c = book();
    assert_eq!(get_manifest_path_from_idref(&c, "c1", &None), Ok("text/c1.xhtml".to_string()));
    assert_eq!(
        get_manifest_path_from_idref(&c, "notes", &Some("n3".to_string())),
        Ok("notes/n.xhtml#n3".to_string())
    );
    assert_eq!(
        get_manifest_path_from_idref(&c, "nope", &None),
        Err(BuildError::Reference { idref: "nope".to_string() })
    );
}

#[test]
fn fallback_reaches_types() {
    let c = book();
    let spine = types(&["application/xhtml+xml"]);
    assert_eq!(id_falls_back_to_types(&c, "img", &spine), Ok(true));
    assert_eq!(id_falls_back_to_types(&c, "img", &types(&["text/css"])), Ok(false));
    assert_eq!(id_falls_back_to_types(&c, "missing", &spine), Ok(false));
}

#[test]
fn ncx_href_from_idref() {
    let c = book();
    assert_eq!(
        get_ncx_path_to_file_from_idref(&c, "notes", &Some("x".to_string()), "OEBPS", "nav/toc.ncx"),
        Ok("../notes/n.xhtml#x".to_string())
    );
    assert_eq!(
        get_ncx_path_to_file_from_idref(&c, "zzz", &None, "OEBPS", "toc.ncx"),
        Err(BuildError::Reference { idref: "zzz".to_string() })
    );
}

#[test]
fn navpoint_conversion() {
    let c = book();
    let p = NavPoint {
        label: Label::Complex(vec![NavLabel { label: "Notes".to_string(), lang: None }]),
        idref: "notes".to_string(),
        fragment: None,
        children: vec![3, 4],
    };
    let out = convert_navpoint(&c, "OEBPS", "toc.ncx", &p).unwrap();
    assert_eq!(out.content, "notes/n.xhtml");
    assert_eq!(out.children, vec![3, 4]);
    assert_eq!(out.labels[0].text, "Notes");
}

#[test]
fn navmap_default_and_explicit() {
    let mut c = book();
    let default = get_navmap(&c, "OEBPS", "toc.ncx", "My Book", "c1").unwrap();
    assert_eq!(default.nodes.len(), 1);
    assert_eq!(default.nodes[0].labels[0].text, "My Book");
    assert_eq!(default.nodes[0].content, "text/c1.xhtml");
    let nested = get_navmap(&c, "OEBPS", "nav/toc.ncx", "My Book", "c1").unwrap();
    assert_eq!(nested.nodes[0].content, "../text/c1.xhtml");
    assert_eq!(
        get_navmap(&c, "OEBPS", "toc.ncx", "My Book", "gone"),
        Err(BuildError::Reference { idref: "gone".to_string() })
    );
    c.navmap = Some(NavMap {
        nodes: vec![NavPoint {
            label: Label::Simple("One".to_string()),
            idref: "c1".to_string(),
            fragment: None,
            children: vec![],
        }],
        roots: vec![0],
    });
    let explicit = get_navmap(&c, "OEBPS", "toc.ncx", "My Book", "ignored").unwrap();
    assert_eq!(explicit.nodes[0].content, "text/c1.xhtml");
    assert_eq!(explicit.nodes[0].labels[0].text, "One");
}

#[test]
fn pagelist_and_navlists() {
    let mut c = book();
    assert_eq!(get_pagelist(&c, "OEBPS", "toc.ncx"), Ok(None));
    assert_eq!(get_navlists(&c, "OEBPS", "toc.ncx").unwrap().len(), 0);
    c.pagelist = Some(vec![PageTarget {
        label: Label::Simple("iv".to_string()),
        id: "p4".to_string(),
        target_type: "front".to_string(),
        value: Some("4".to_string()),
        idref: "c1".to_string(),
        fragment: Some("p4".to_string()),
    }]);
    let pages = get_pagelist(&c, "OEBPS", "toc.ncx").unwrap().unwrap();
    assert_eq!(pages[0].id, "p4");
    assert_eq!(pages[0].target_type, "front");
    assert_eq!(pages[0].value.as_deref(), Some("4"));
    assert_eq!(pages[0].content, "text/c1.xhtml#p4");
    let targets = vec![NavTarget { label: Label::Simple("Fig".to_string()), idref: "img".to_string(), fragment: None }];
    let converted = convert_navlist(&c, "OEBPS", "toc.ncx", &targets).unwrap();
    assert_eq!(converted[0].content, "images/a.png");
    c.navlists = Some(vec![NavList { label: Label::Simple("Figures".to_string()), list: targets }]);
    let lists = get_navlists(&c, "OEBPS", "toc.ncx").unwrap();
    assert_eq!(lists[0].labels[0].text, "Figures");
    assert_eq!(lists[0].targets[0].content, "images/a.png");
}

#[test]
fn opf_manifest_spine_guide() {
    let mut c = book();
    let m = get_manifest(&c, "ncx", "toc.ncx");
    assert_eq!(m.len(), 4);
    assert_eq!(m[0].href, "toc.ncx");
    assert_eq!(m[2].fallback.as_deref(), Some("c1"));
    let s = get_spine(&c, "ncx").unwrap();
    assert_eq!(s.itemrefs[0].idref, "c1");
    c.spine = Some(vec![Itemref::RawIdref("notes".to_string())]);
    let s = get_spine(&c, "ncx").unwrap();
    assert_eq!(s.itemrefs.len(), 1);
    assert_eq!(s.itemrefs[0].idref, "notes");
    assert_eq!(get_guide(&c), Ok(None));
    c.guide = Some(vec![Reference {
        reference_type: "cover".to_string(),
        title: None,
        idref: "img".to_string(),
        fragment: None,
    }]);
    assert_eq!(get_guide(&c).unwrap().unwrap()[0].href, "images/a.png");
}
