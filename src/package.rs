use vstd::prelude::*;

use crate::config::{
    BuildError, Epub2Config, ManifestItem, Metadata, NonmanifestFile, PageTarget, Rootfile,
};
use crate::metadata::{
    dc_element_of, lemma_metadata_reproducible_with_identifier, DcElement, entry_views, first_unrecognized, get_uid_and_title_and_metadata, host_locale, metadata_result,
    metadata_name, new_uuid_string, opt_view, recipe_metadata, MetadataEntry,
};
use crate::ncx::{
    build_ncx_document, navlists_outcome, navmap_outcome, ncx_idrefs_resolve, pagelist_outcome,
    NcxDocument,
};
use crate::opf::{
    first_linear, first_linear_idref, lemma_index_of_present, lemma_itemrefs_resolve, get_guide, get_manifest, get_spine, guide_fails,
    guide_outcome, index_of_id, lemma_first_linear_bound, lemma_first_unresolved_itemref,
    lemma_first_unresolved_reference, lemma_no_linear, lemma_spine_stop_bound, manifest_outcome,
    spine_outcome, spine_ref_of, spine_status, spine_stop, GuideRef, OpfItem, Spine,
};
use crate::paths::{join_dir, join_path, parent_dir, parent_of, valid_inside_path};
use crate::text::{str_eq, views};
use crate::validate::{
    check_inside_path_is_valid, check_no_duplicate_inside_paths, check_no_id_collisions,
    get_safe_uid, has_case_insensitive_duplicate, is_safe_uid, repeats_earlier,
};

verus! {

/// A rootfile entry of the container document.
#[derive(Debug, PartialEq)]
pub struct ContainerRootfile {
    pub full_path: String,
    pub media_type: String,
}

/// What an entry of the archive holds.
#[derive(Debug, PartialEq)]
pub enum EntryContent {
    /// These bytes.
    Bytes(Vec<u8>),
    /// The file or directory at this path outside the archive; a directory
    /// brings its members, each under its name below the entry's path.
    CopyFrom(String),
    /// The container document.
    ContainerXml,
    /// The OPF package document.
    OpfXml,
    /// The NCX document.
    NcxXml,
}

/// An entry of the archive, in the order of writing.
#[derive(Debug, PartialEq)]
pub struct ArchiveEntry {
    pub path: String,
    pub content: EntryContent,
    /// Stored as it is, whatever deflating would give.
    pub always_stored: bool,
}

/// How an entry is stored.
#[derive(Clone, Copy, Debug, PartialEq, Eq, Structural)]
pub enum Encoding {
    Stored,
    Deflated,
}

/// The storage of an entry: deflated only where that is smaller than the bytes
/// themselves.
pub fn choose_encoding(uncompressed_size: u64, deflated_size: u64) -> (r: Encoding)
    ensures
        r == (if deflated_size < uncompressed_size {
            Encoding::Deflated
        } else {
            Encoding::Stored
        }),
{
    if deflated_size < uncompressed_size {
        Encoding::Deflated
    } else {
        Encoding::Stored
    }
}

/// The bytes of `application/epub+zip`.
pub open spec fn epub_mimetype_bytes() -> Seq<u8> {
    seq![
        97u8, 112, 112, 108, 105, 99, 97, 116, 105, 111, 110, 47, 101, 112, 117, 98, 43, 122, 105,
        112,
    ]
}

/// The entry `mimetype`, stored, holding `application/epub+zip`.
pub open spec fn is_mimetype_entry(e: ArchiveEntry) -> bool {
    &&& e.path@ == "mimetype"@
    &&& e.content matches EntryContent::Bytes(b) && b@ == epub_mimetype_bytes()
    &&& e.always_stored
}

/// Appends the entry `mimetype`, stored, holding `application/epub+zip`.
pub fn add_epub_mimetype(entries: &mut Vec<ArchiveEntry>)
    ensures
        final(entries)@.len() == old(entries)@.len() + 1,
        final(entries)@.take(old(entries)@.len() as int) == old(entries)@,
        is_mimetype_entry(final(entries)@[old(entries)@.len() as int]),
{
    let bytes: Vec<u8> = vec![
        97u8, 112, 112, 108, 105, 99, 97, 116, 105, 111, 110, 47, 101, 112, 117, 98, 43, 122, 105,
        112,
    ];
    assert(bytes@ =~= epub_mimetype_bytes());
    let ghost before = entries@;
    entries.push(
        ArchiveEntry {
            path: String::from_str("mimetype"),
            content: EntryContent::Bytes(bytes),
            always_stored: true,
        },
    );
    assert(entries@.take(before.len() as int) =~= before);
}

/// A path, as the text it is.
pub fn p_to_string(p: &str) -> (r: String)
    ensures
        r@ == p@,
{
    p.to_owned()
}

/// Index of the first rootfile of the OPF media type, or -1.
pub open spec fn opf_rootfile_index(v: Seq<Rootfile>) -> int
    decreases v.len(),
{
    if v.len() == 0 {
        -1
    } else if opf_rootfile_index(v.drop_last()) >= 0 {
        opf_rootfile_index(v.drop_last())
    } else if v.last().media_type@ == "application/oebps-package+xml"@ {
        v.len() - 1
    } else {
        -1
    }
}

proof fn lemma_opf_rootfile_index(v: Seq<Rootfile>, i: int)
    requires
        0 <= i <= v.len(),
        forall|j: int|
            0 <= j < i ==> (#[trigger] v[j]).media_type@ != "application/oebps-package+xml"@,
    ensures
        i < v.len() && v[i].media_type@ == "application/oebps-package+xml"@ ==> opf_rootfile_index(v) == i,
        i == v.len() ==> opf_rootfile_index(v) == -1,
    decreases v.len(),
{
    if v.len() > 0 {
        if i < v.len() && v[i].media_type@ == "application/oebps-package+xml"@ {
            if i < v.len() - 1 {
                lemma_opf_rootfile_index(v.drop_last(), i);
                assert(v.drop_last()[i] == v[i]);
            } else {
                lemma_opf_rootfile_index(v.drop_last(), v.len() - 1);
            }
        } else if i == v.len() {
            lemma_opf_rootfile_index(v.drop_last(), v.len() - 1);
        }
    }
}

/// Whether the recipe names a rootfile of the OPF media type.
pub open spec fn has_opf_rootfile(config: Epub2Config) -> bool {
    config.rootfiles matches Some(v) && opf_rootfile_index(v@) >= 0
}

/// Where the OPF stands: the first rootfile of the OPF media type, else
/// `OEBPS/content.opf`.
pub open spec fn opf_path_of(config: Epub2Config) -> Seq<char> {
    if has_opf_rootfile(config) {
        let v = config.rootfiles->0@;
        v[opf_rootfile_index(v)].path@
    } else {
        "OEBPS/content.opf"@
    }
}

/// Whether the default OPF rootfile must be added, and the OPF's path.
pub fn opf_location(config: &Epub2Config) -> (r: (bool, String))
    ensures
        r.0 == !has_opf_rootfile(*config),
        r.1@ == opf_path_of(*config),
{
    match &config.rootfiles {
        None => (true, String::from_str("OEBPS/content.opf")),
        Some(v) => {
            let mut i: usize = 0;
            while i < v.len()
                invariant
                    i <= v@.len(),
                    config.rootfiles == Some(*v),
                    forall|j: int|
                        0 <= j < i ==> (#[trigger] v@[j]).media_type@
                            != "application/oebps-package+xml"@,
                decreases v@.len() - i,
            {
                if str_eq(v[i].media_type.as_str(), "application/oebps-package+xml") {
                    proof {
                        lemma_opf_rootfile_index(v@, i as int);
                    }
                    return (false, v[i].path.clone());
                }
                i = i + 1;
            }
            proof {
                lemma_opf_rootfile_index(v@, i as int);
            }
            (true, String::from_str("OEBPS/content.opf"))
        },
    }
}

/// The NCX's manifest id: the recipe's, else `ncx`.
pub open spec fn ncx_id_of(config: Epub2Config) -> Seq<char> {
    match config.ncx_meta {
        Some(meta) => match meta.manifest_id {
            Some(id) => id@,
            None => "ncx"@,
        },
        None => "ncx"@,
    }
}

/// The NCX's path relative to the OPF: the recipe's, else `toc.ncx`.
pub open spec fn ncx_path_from_opf_of(config: Epub2Config) -> Seq<char> {
    match config.ncx_meta {
        Some(meta) => match meta.manifest_path_from_opf {
            Some(p) => p@,
            None => "toc.ncx"@,
        },
        None => "toc.ncx"@,
    }
}

/// The NCX's manifest id and its path relative to the OPF.
pub fn ncx_location(config: &Epub2Config) -> (r: (String, String))
    ensures
        r.0@ == ncx_id_of(*config),
        r.1@ == ncx_path_from_opf_of(*config),
{
    match &config.ncx_meta {
        Some(meta) => {
            let id = match &meta.manifest_id {
                Some(id) => id.clone(),
                None => String::from_str("ncx"),
            };
            let path = match &meta.manifest_path_from_opf {
                Some(p) => p.clone(),
                None => String::from_str("toc.ncx"),
            };
            (id, path)
        },
        None => (String::from_str("ncx"), String::from_str("toc.ncx")),
    }
}

/// The default OPF rootfile.
pub open spec fn is_default_rootfile(c: ContainerRootfile) -> bool {
    c.full_path@ == "OEBPS/content.opf"@ && c.media_type@ == "application/oebps-package+xml"@
}

/// The rootfiles of the container for the recipe.
pub open spec fn container_outcome(config: Epub2Config, add_opf_to_rootfiles: bool, r: Seq<ContainerRootfile>) -> bool {
    match config.rootfiles {
        None => r.len() == 1 && is_default_rootfile(r[0]),
        Some(v) => {
            &&& r.len() == v@.len() + (if add_opf_to_rootfiles {
                1int
            } else {
                0int
            })
            &&& forall|i: int|
                0 <= i < v@.len() ==> (#[trigger] r[i]).full_path == v@[i].path
                    && r[i].media_type == v@[i].media_type
            &&& add_opf_to_rootfiles ==> is_default_rootfile(r[v@.len() as int])
        },
    }
}

/// The rootfiles of the container: the recipe's, in order, followed by the
/// default OPF rootfile where `add_opf_to_rootfiles`; without rootfiles in the
/// recipe, the default OPF rootfile alone.
pub fn build_container(config: &Epub2Config, add_opf_to_rootfiles: bool) -> (r: Vec<ContainerRootfile>)
    ensures
        container_outcome(*config, add_opf_to_rootfiles, r@),
{
    let mut out: Vec<ContainerRootfile> = Vec::new();
    match &config.rootfiles {
        None => {
            out.push(
                ContainerRootfile {
                    full_path: String::from_str("OEBPS/content.opf"),
                    media_type: String::from_str("application/oebps-package+xml"),
                },
            );
        },
        Some(v) => {
            let mut i: usize = 0;
            while i < v.len()
                invariant
                    i <= v@.len(),
                    config.rootfiles == Some(*v),
                    out@.len() == i,
                    forall|j: int|
                        0 <= j < i ==> (#[trigger] out@[j]).full_path == v@[j].path
                            && out@[j].media_type == v@[j].media_type,
                decreases v@.len() - i,
            {
                out.push(
                    ContainerRootfile {
                        full_path: v[i].path.clone(),
                        media_type: v[i].media_type.clone(),
                    },
                );
                i = i + 1;
            }
            if add_opf_to_rootfiles {
                out.push(
                    ContainerRootfile {
                        full_path: String::from_str("OEBPS/content.opf"),
                        media_type: String::from_str("application/oebps-package+xml"),
                    },
                );
            }
        },
    }
    out
}

/// The OPF package document.
#[derive(Debug, PartialEq)]
pub struct OpfPackage {
    pub unique_identifier: String,
    pub metadata: Vec<MetadataEntry>,
    pub manifest: Vec<OpfItem>,
    pub spine: Spine,
    pub guide: Option<Vec<GuideRef>>,
}

/// Everything that goes into the archive: its entries in the order of writing,
/// and the three documents that the entries `ContainerXml`, `OpfXml` and
/// `NcxXml` stand for.
#[derive(Debug, PartialEq)]
pub struct EpubPlan {
    pub entries: Vec<ArchiveEntry>,
    pub container: Vec<ContainerRootfile>,
    pub opf: OpfPackage,
    pub ncx: NcxDocument,
}

/// The OPF's directory.
pub open spec fn opf_parent_of(config: Epub2Config) -> Seq<char> {
    parent_dir(opf_path_of(config))
}

/// Where the NCX stands in the archive.
pub open spec fn ncx_path_of(config: Epub2Config) -> Seq<char> {
    join_path(opf_parent_of(config), ncx_path_from_opf_of(config))
}

/// Where each manifest item stands in the archive.
pub open spec fn manifest_inside_paths(config: Epub2Config) -> Seq<Seq<char>> {
    config.manifest@.map_values(
        |m: ManifestItem| join_path(opf_parent_of(config), m.inside_path_from_opf@),
    )
}

pub open spec fn nonmanifest_files_of(config: Epub2Config) -> Seq<NonmanifestFile> {
    match config.nonmanifest_files {
        Some(v) => v@,
        None => Seq::empty(),
    }
}

/// The files copied into the archive: the manifest items, then the other files,
/// each as its path outside and its path inside the archive.
pub open spec fn copied_files_of(config: Epub2Config) -> Seq<(Seq<char>, Seq<char>)> {
    config.manifest@.map_values(
        |m: ManifestItem| (m.outside_path@, join_path(opf_parent_of(config), m.inside_path_from_opf@)),
    ) + nonmanifest_files_of(config).map_values(
        |f: NonmanifestFile| (f.outside_path@, f.inside_path@),
    )
}

/// Every path of the archive: the copied files, the container document, the
/// OPF, the NCX and `mimetype`.
pub open spec fn archive_paths_of(config: Epub2Config) -> Seq<Seq<char>> {
    copied_files_of(config).map_values(|p: (Seq<char>, Seq<char>)| p.1) + seq![
        "META-INF/container.xml"@,
        opf_path_of(config),
        ncx_path_of(config),
        "mimetype"@,
    ]
}

/// Every path of the archive may name an entry.
pub open spec fn archive_paths_valid(config: Epub2Config) -> bool {
    forall|i: int|
        0 <= i < archive_paths_of(config).len() ==> valid_inside_path(
            #[trigger] archive_paths_of(config)[i],
        )
}

/// The ids that the metadata entries of the recipe carry.
pub open spec fn metadata_ids(md: Seq<Metadata>) -> Seq<Seq<char>>
    decreases md.len(),
{
    if md.len() == 0 {
        Seq::empty()
    } else {
        let r = metadata_ids(md.drop_last());
        match md.last() {
            Metadata::DcMetadata { id: Some(x), .. } => r.push(x@),
            _ => r,
        }
    }
}

/// The OPF's identifiers: the manifest ids, the NCX's id and the metadata ids.
pub open spec fn opf_ids_of(config: Epub2Config) -> Seq<Seq<char>> {
    config.manifest@.map_values(|m: ManifestItem| m.id@).push(ncx_id_of(config)) + metadata_ids(
        recipe_metadata(config.metadata),
    )
}

/// The ids of the page list.
pub open spec fn page_ids_of(config: Epub2Config) -> Seq<Seq<char>> {
    match config.pagelist {
        Some(l) => l@.map_values(|t: PageTarget| t.id@),
        None => Seq::empty(),
    }
}

/// The archive's paths are distinct up to ASCII case and all valid, and so are
/// the OPF's identifiers and those of the page list.
pub open spec fn paths_and_ids_pass(config: Epub2Config) -> bool {
    &&& !has_case_insensitive_duplicate(archive_paths_of(config))
    &&& archive_paths_valid(config)
    &&& !has_case_insensitive_duplicate(opf_ids_of(config))
    &&& !has_case_insensitive_duplicate(page_ids_of(config))
}

/// Every check before the documents are built passes, a manifest item may stand
/// in the spine, and the spine that the recipe gives has a linear entry.
pub open spec fn checks_before_references_pass(config: Epub2Config) -> bool {
    &&& paths_and_ids_pass(config)
    &&& first_unrecognized(recipe_metadata(config.metadata)) == recipe_metadata(config.metadata).len()
    &&& spine_stop(config.manifest@, 0) < config.manifest@.len()
    &&& spine_status(config.manifest@, spine_stop(config.manifest@, 0)) == Some(true)
    &&& config.spine matches Some(l) ==> exists|i: int|
        0 <= i < l@.len() && (#[trigger] spine_ref_of(l@[i])).linear
}

/// Every idref of the spine, the guide and the NCX names a manifest item.
pub open spec fn idrefs_resolve(config: Epub2Config) -> bool {
    &&& !(config.spine matches Some(l) && crate::opf::first_unresolved_itemref(config.manifest@, l@) < l@.len())
    &&& !guide_fails(config)
    &&& ncx_idrefs_resolve(config)
}

/// Entries of the archive from index `start` hold the copied files, in order.
pub open spec fn copies_at(entries: Seq<ArchiveEntry>, start: int, files: Seq<(Seq<char>, Seq<char>)>) -> bool {
    forall|i: int|
        0 <= i < files.len() ==> {
            let e = #[trigger] entries[start + i];
            &&& e.path@ == files[i].1
            &&& e.content matches EntryContent::CopyFrom(o) && o@ == files[i].0
            &&& !e.always_stored
        }
}

proof fn lemma_metadata_ids_step(md: Seq<Metadata>, i: int)
    requires
        0 <= i < md.len(),
    ensures
        metadata_ids(md.take(i + 1)) == match md[i] {
            Metadata::DcMetadata { id: Some(x), .. } => metadata_ids(md.take(i)).push(x@),
            _ => metadata_ids(md.take(i)),
        },
{
    assert(md.take(i + 1).drop_last() =~= md.take(i));
}

/// What a successful build gives for the recipe, a fresh UUID and the host's
/// language: the entries `mimetype`, the copied files, the container, the OPF
/// and the NCX, in that order, and the three documents.
pub open spec fn plan_matches(
    config: Epub2Config,
    uuid: Seq<char>,
    locale: Option<Seq<char>>,
    p: EpubPlan,
) -> bool {
    let files = copied_files_of(config);
    let n = files.len() as int;
    let e = p.entries@;
    let m = config.manifest@;
    let refs = p.opf.spine.itemrefs@;
    &&& e.len() == n + 4
    &&& is_mimetype_entry(e[0])
    &&& copies_at(e, 1, files)
    &&& e[n + 1].path@ == "META-INF/container.xml"@ && e[n + 1].content is ContainerXml
    &&& e[n + 2].path@ == opf_path_of(config) && e[n + 2].content is OpfXml
    &&& e[n + 3].path@ == ncx_path_of(config) && e[n + 3].content is NcxXml
    &&& !e[n + 1].always_stored && !e[n + 2].always_stored && !e[n + 3].always_stored
    &&& container_outcome(config, !has_opf_rootfile(config), p.container@)
    &&& exists|safe: Seq<char>|
        is_safe_uid(opf_ids_of(config), safe) && (
        entry_views(p.opf.metadata@),
        p.opf.unique_identifier@,
        p.ncx.doc_title@,
    ) == #[trigger] metadata_result(recipe_metadata(config.metadata), safe, uuid, locale)
    &&& p.ncx.uid@ == p.opf.unique_identifier@
    &&& p.opf.unique_identifier@.len() > 0
    &&& manifest_outcome(config, ncx_id_of(config), ncx_path_from_opf_of(config), p.opf.manifest@)
    &&& spine_outcome(config, ncx_id_of(config), Ok(p.opf.spine))
    &&& guide_outcome(config, Ok(p.opf.guide))
    &&& 0 <= first_linear(refs) < refs.len()
    &&& navmap_outcome(
        config,
        opf_parent_of(config),
        ncx_path_from_opf_of(config),
        p.ncx.doc_title@,
        refs[first_linear(refs)].idref@,
        Ok(p.ncx.navmap),
    )
    &&& pagelist_outcome(config, opf_parent_of(config), ncx_path_from_opf_of(config), Ok(p.ncx.pagelist))
    &&& navlists_outcome(config, opf_parent_of(config), ncx_path_from_opf_of(config), Ok(p.ncx.navlists))
}

/// Plans the EPUB2 archive for a recipe, given a fresh UUID for a missing
/// identifier and the host's language for a missing language. The paths of the
/// archive are checked first (no two equal up to ASCII case, each valid), then
/// the OPF's identifiers and the page list's; only then are the documents built.
/// The build succeeds whenever these checks pass, the metadata names only known
/// elements, the spine can be built with a linear entry, and every idref
/// resolves.
pub fn plan_epub2_with(config: &Epub2Config, generated_uuid: &str, host_locale: &Option<String>) -> (r:
    Result<EpubPlan, BuildError>)
    ensures
        r is Ok ==> paths_and_ids_pass(*config) && idrefs_resolve(*config),
        has_case_insensitive_duplicate(archive_paths_of(*config)) ==> (r matches Err(e)
            && e is Collision),
        r matches Err(e) ==> (e matches BuildError::Reference { idref } ==> index_of_id(
            config.manifest@,
            idref@,
        ) < 0),
        checks_before_references_pass(*config) && !idrefs_resolve(*config) ==> (r matches Err(e)
            && e is Reference),
        checks_before_references_pass(*config) && idrefs_resolve(*config) ==> r is Ok,
        !has_case_insensitive_duplicate(archive_paths_of(*config)) && !archive_paths_valid(*config)
            ==> (r matches Err(e) && e matches BuildError::Path { path } && exists|i: int|
            0 <= i < archive_paths_of(*config).len() && archive_paths_of(*config)[i] == path@
                && !valid_inside_path(path@)),
        !has_case_insensitive_duplicate(archive_paths_of(*config)) && archive_paths_valid(*config)
            && has_case_insensitive_duplicate(opf_ids_of(*config)) ==> (r matches Err(e)
            && e matches BuildError::Collision { name } && exists|j: int|
            0 <= j < opf_ids_of(*config).len() && opf_ids_of(*config)[j] == name@
                && repeats_earlier(opf_ids_of(*config), j)),
        !has_case_insensitive_duplicate(archive_paths_of(*config)) && archive_paths_valid(*config)
            && !has_case_insensitive_duplicate(opf_ids_of(*config))
            && has_case_insensitive_duplicate(page_ids_of(*config)) ==> (r matches Err(e)
            && e matches BuildError::Collision { name } && exists|j: int|
            0 <= j < page_ids_of(*config).len() && page_ids_of(*config)[j] == name@
                && repeats_earlier(page_ids_of(*config), j)),
        paths_and_ids_pass(*config) && first_unrecognized(recipe_metadata(config.metadata))
            < recipe_metadata(config.metadata).len() ==> (r matches Err(e)
            && e matches BuildError::Schema { name } && name@ == metadata_name(
            recipe_metadata(config.metadata)[first_unrecognized(recipe_metadata(config.metadata))],
        )),
        r matches Ok(p) ==> plan_matches(*config, generated_uuid@, opt_view(*host_locale), p),
{
    let (add_opf, opf_path) = opf_location(config);
    let opf_parent = parent_of(opf_path.as_str());
    let (ncx_id, ncx_path_from_opf) = ncx_location(config);
    let ncx_path = join_dir(opf_parent.as_str(), ncx_path_from_opf.as_str());
    let ghost files = copied_files_of(*config);
    let ghost nm = config.manifest@.len();
    let mut entries: Vec<ArchiveEntry> = Vec::new();
    add_epub_mimetype(&mut entries);
    let mut inside_paths: Vec<String> = Vec::new();
    let mut i: usize = 0;
    while i < config.manifest.len()
        invariant
            i <= config.manifest@.len(),
            files == copied_files_of(*config),
            nm == config.manifest@.len(),
            opf_parent@ == opf_parent_of(*config),
            inside_paths@.len() == i,
            entries@.len() == i + 1,
            is_mimetype_entry(entries@[0]),
            forall|j: int| 0 <= j < i ==> (#[trigger] inside_paths@[j])@ == files[j].1,
            copies_at(entries@, 1, files.take(i as int)),
        decreases config.manifest@.len() - i,
    {
        let item = &config.manifest[i];
        assert(files[i as int] == (item.outside_path@, join_path(opf_parent@, item.inside_path_from_opf@)));
        let inside = join_dir(opf_parent.as_str(), item.inside_path_from_opf.as_str());
        inside_paths.push(inside.clone());
        entries.push(
            ArchiveEntry {
                path: inside,
                content: EntryContent::CopyFrom(item.outside_path.clone()),
                always_stored: false,
            },
        );
        assert forall|j: int| 0 <= j < i + 1 implies {
            let e = #[trigger] entries@[1 + j];
            &&& e.path@ == files.take(i + 1)[j].1
            &&& e.content matches EntryContent::CopyFrom(o) && o@ == files.take(i + 1)[j].0
            &&& !e.always_stored
        } by {
            if j < i {
                assert(files.take(i + 1)[j] == files.take(i as int)[j]);
            }
        }
        i = i + 1;
    }
    match &config.nonmanifest_files {
        None => {
            assert(files =~= files.take(nm as int));
        },
        Some(others) => {
            let mut k: usize = 0;
            while k < others.len()
                invariant
                    k <= others@.len(),
                    config.nonmanifest_files == Some(*others),
                    files == copied_files_of(*config),
                    nm == config.manifest@.len(),
                    files.len() == nm + others@.len(),
                    inside_paths@.len() == nm + k,
                    entries@.len() == nm + k + 1,
                    is_mimetype_entry(entries@[0]),
                    forall|j: int| 0 <= j < nm + k ==> (#[trigger] inside_paths@[j])@ == files[j].1,
                    copies_at(entries@, 1, files.take(nm + k)),
                decreases others@.len() - k,
            {
                let f = &others[k];
                assert(files[nm + k] == (f.outside_path@, f.inside_path@));
                inside_paths.push(f.inside_path.clone());
                entries.push(
                    ArchiveEntry {
                        path: f.inside_path.clone(),
                        content: EntryContent::CopyFrom(f.outside_path.clone()),
                        always_stored: false,
                    },
                );
                assert forall|j: int| 0 <= j < nm + k + 1 implies {
                    let e = #[trigger] entries@[1 + j];
                    &&& e.path@ == files.take(nm + k + 1)[j].1
                    &&& e.content matches EntryContent::CopyFrom(o) && o@ == files.take(nm + k + 1)[j].0
                    &&& !e.always_stored
                } by {
                    if j < nm + k {
                        assert(files.take(nm + k + 1)[j] == files.take(nm + k)[j]);
                    }
                }
                k = k + 1;
            }
            assert(files =~= files.take(nm + k));
        },
    }
    let n = inside_paths.len();
    inside_paths.push(String::from_str("META-INF/container.xml"));
    inside_paths.push(opf_path.clone());
    inside_paths.push(ncx_path.clone());
    inside_paths.push(String::from_str("mimetype"));
    assert(views(inside_paths@) =~= archive_paths_of(*config));
    // the paths of the archive
    check_no_duplicate_inside_paths(&inside_paths)?;
    let mut q: usize = 0;
    while q < inside_paths.len()
        invariant
            q <= inside_paths@.len(),
            views(inside_paths@) == archive_paths_of(*config),
            !has_case_insensitive_duplicate(archive_paths_of(*config)),
            forall|j: int| 0 <= j < q ==> valid_inside_path(#[trigger] archive_paths_of(*config)[j]),
        decreases inside_paths@.len() - q,
    {
        assert(views(inside_paths@)[q as int] == inside_paths@[q as int]@);
        check_inside_path_is_valid(inside_paths[q].as_str())?;
        q = q + 1;
    }
    // the identifiers of the OPF
    let mut opf_ids: Vec<String> = Vec::new();
    let mut j: usize = 0;
    while j < config.manifest.len()
        invariant
            j <= config.manifest@.len(),
            views(opf_ids@) == config.manifest@.take(j as int).map_values(|m: ManifestItem| m.id@),
        decreases config.manifest@.len() - j,
    {
        let ghost before = views(opf_ids@);
        opf_ids.push(config.manifest[j].id.clone());
        assert(views(opf_ids@) =~= before.push(config.manifest@[j as int].id@));
        assert(config.manifest@.take(j + 1).map_values(|m: ManifestItem| m.id@) =~= config.manifest@.take(
            j as int,
        ).map_values(|m: ManifestItem| m.id@).push(config.manifest@[j as int].id@));
        j = j + 1;
    }
    assert(config.manifest@.take(j as int) =~= config.manifest@);
    let ghost before_ncx = views(opf_ids@);
    opf_ids.push(ncx_id.clone());
    assert(views(opf_ids@) =~= before_ncx.push(ncx_id@));
    let ghost head = views(opf_ids@);
    assert(head == config.manifest@.map_values(|m: ManifestItem| m.id@).push(ncx_id_of(*config)));
    match &config.metadata {
        None => {
            assert(metadata_ids(Seq::<Metadata>::empty()) =~= Seq::<Seq<char>>::empty());
            assert(views(opf_ids@) =~= head + metadata_ids(recipe_metadata(config.metadata)));
        },
        Some(md) => {
            let mut t: usize = 0;
            assert(md@.take(0) =~= Seq::<Metadata>::empty());
            assert(head + metadata_ids(md@.take(0)) =~= head);
            while t < md.len()
                invariant
                    t <= md@.len(),
                    views(opf_ids@) == head + metadata_ids(md@.take(t as int)),
                decreases md@.len() - t,
            {
                proof {
                    lemma_metadata_ids_step(md@, t as int);
                }
                match &md[t] {
                    Metadata::DcMetadata { id: Some(x), .. } => {
                        let ghost b = views(opf_ids@);
                        opf_ids.push(x.clone());
                        assert(views(opf_ids@) =~= b.push(x@));
                        assert(head + metadata_ids(md@.take(t + 1)) =~= (head + metadata_ids(
                            md@.take(t as int),
                        )).push(x@));
                    },
                    _ => {},
                }
                t = t + 1;
            }
            assert(md@.take(t as int) =~= md@);
        },
    }
    assert(views(opf_ids@) == opf_ids_of(*config));
    check_no_id_collisions(&opf_ids)?;
    let safe_uid = get_safe_uid(&opf_ids);
    proof {
        let k = choose|k: nat|
            safe_uid@ == crate::validate::uid_candidate(k) && !crate::validate::collides_with_any(
                opf_ids_of(*config),
                crate::validate::uid_candidate(k),
            ) && forall|k2: nat|
                k2 < k ==> crate::validate::collides_with_any(
                    opf_ids_of(*config),
                    #[trigger] crate::validate::uid_candidate(k2),
                );
        assert(safe_uid@.len() >= 6);
    }
    // the identifiers of the page list
    match &config.pagelist {
        None => {
            assert(!has_case_insensitive_duplicate(page_ids_of(*config)));
        },
        Some(l) => {
            let mut page_ids: Vec<String> = Vec::new();
            let mut u: usize = 0;
            while u < l.len()
                invariant
                    u <= l@.len(),
                    views(page_ids@) == l@.take(u as int).map_values(|t: PageTarget| t.id@),
                decreases l@.len() - u,
            {
                let ghost b = views(page_ids@);
                page_ids.push(l[u].id.clone());
                assert(views(page_ids@) =~= b.push(l@[u as int].id@));
                assert(l@.take(u + 1).map_values(|t: PageTarget| t.id@) =~= l@.take(u as int).map_values(
                    |t: PageTarget| t.id@,
                ).push(l@[u as int].id@));
                u = u + 1;
            }
            assert(l@.take(u as int) =~= l@);
            check_no_id_collisions(&page_ids)?;
        },
    }
    // the documents
    let container = build_container(config, add_opf);
    let (uid, title, metadata) = get_uid_and_title_and_metadata(
        config,
        safe_uid.as_str(),
        generated_uuid,
        host_locale,
    )?;
    let manifest = get_manifest(config, ncx_id.as_str(), ncx_path_from_opf.as_str());
    proof {
        lemma_spine_stop_bound(config.manifest@, 0);
    }
    let spine = match get_spine(config, ncx_id.as_str()) {
        Ok(sp) => sp,
        Err(e) => {
            proof {
                let m = config.manifest@;
                let s = spine_stop(m, 0);
                assert(s <= m.len());
                if config.spine is Some {
                    lemma_first_unresolved_itemref(config.manifest@, config.spine->0@);
                }
                if e is Reference {
                    assert(s < m.len());
                    assert(spine_status(m, s) == Some(true));
                    assert(config.spine is Some);
                    let l = config.spine->0@;
                    let u = crate::opf::first_unresolved_itemref(m, l);
                    assert(u < l.len());
                }
            }
            return Err(e);
        },
    };
    let guide = match get_guide(config) {
        Ok(g) => g,
        Err(e) => {
            proof {
                if config.guide is Some {
                    lemma_first_unresolved_reference(config.manifest@, config.guide->0@);
                }
            }
            return Err(e);
        },
    };
    let first_idref = match first_linear_idref(&spine) {
        Ok(h) => h,
        Err(e) => {
            proof {
                if checks_before_references_pass(*config) && e is NoLinearSpineItem {
                    lemma_first_linear_bound(spine.itemrefs@);
                    if config.spine is Some {
                        let l = config.spine->0@;
                        lemma_first_unresolved_itemref(config.manifest@, l);
                        assert(spine.itemrefs@ == l.map_values(|x: crate::config::Itemref| spine_ref_of(x)));
                        let i = choose|i: int| 0 <= i < l.len() && (#[trigger] spine_ref_of(l[i])).linear;
                        assert(spine.itemrefs@[i] == spine_ref_of(l[i]));
                        lemma_no_linear(spine.itemrefs@, i);
                    } else {
                        assert(spine.itemrefs@[0].linear);
                        lemma_no_linear(spine.itemrefs@, 0);
                    }
                }
            }
            return Err(e);
        },
    };
    proof {
        lemma_first_linear_bound(spine.itemrefs@);
        assert forall|x: int| 0 <= x < config.manifest@.len() implies valid_inside_path(
            join_path(opf_parent@, (#[trigger] config.manifest@[x]).inside_path_from_opf@),
        ) by {
            assert(archive_paths_of(*config)[x] == files[x].1);
        }
        assert(archive_paths_of(*config)[n + 2] == ncx_path_of(*config));
        if config.spine is Some {
            lemma_first_unresolved_itemref(config.manifest@, config.spine->0@);
        }
        if config.guide is Some {
            lemma_first_unresolved_reference(config.manifest@, config.guide->0@);
        }
        let f = first_linear(spine.itemrefs@);
        lemma_spine_stop_bound(config.manifest@, 0);
        assert(!crate::opf::spine_fails(*config));
        assert(spine_stop(config.manifest@, 0) < config.manifest@.len());
        assert(spine_status(config.manifest@, spine_stop(config.manifest@, 0)) == Some(true));
        if config.spine is Some {
            let l = config.spine->0@;
            if crate::opf::first_unresolved_itemref(config.manifest@, l) == l.len() {
                assert(spine.itemrefs@ == l.map_values(|x: crate::config::Itemref| spine_ref_of(x)));
                assert(spine.itemrefs@[f] == spine_ref_of(l[f]));
                lemma_itemrefs_resolve(config.manifest@, l, f);
            }
        } else {
            let s0 = spine_stop(config.manifest@, 0);
            lemma_index_of_present(config.manifest@, s0);
        }
        assert(index_of_id(config.manifest@, first_idref@) >= 0);
    }
    let ncx = build_ncx_document(
        config,
        opf_parent.as_str(),
        ncx_path_from_opf.as_str(),
        uid.as_str(),
        title.as_str(),
        first_idref.as_str(),
    )?;
    let ghost before = entries@;
    entries.push(
        ArchiveEntry {
            path: String::from_str("META-INF/container.xml"),
            content: EntryContent::ContainerXml,
            always_stored: false,
        },
    );
    entries.push(ArchiveEntry { path: opf_path, content: EntryContent::OpfXml, always_stored: false });
    entries.push(ArchiveEntry { path: ncx_path, content: EntryContent::NcxXml, always_stored: false });
    assert forall|x: int| 0 <= x < files.len() implies #[trigger] entries@[1 + x] == before[1 + x] by {}
    Ok(
        EpubPlan {
            entries,
            container,
            opf: OpfPackage { unique_identifier: uid, metadata, manifest, spine, guide },
            ncx,
        },
    )
}

/// Plans the EPUB2 archive for a recipe, with a fresh random UUID for a missing
/// identifier and the host's language for a missing language.
pub fn plan_epub2(config: &Epub2Config) -> (r: Result<EpubPlan, BuildError>)
    ensures
        r is Ok ==> paths_and_ids_pass(*config) && idrefs_resolve(*config),
        has_case_insensitive_duplicate(archive_paths_of(*config)) ==> (r matches Err(e)
            && e is Collision),
        r matches Err(e) ==> (e matches BuildError::Reference { idref } ==> index_of_id(
            config.manifest@,
            idref@,
        ) < 0),
        checks_before_references_pass(*config) && !idrefs_resolve(*config) ==> (r matches Err(e)
            && e is Reference),
        checks_before_references_pass(*config) && idrefs_resolve(*config) ==> r is Ok,
        !has_case_insensitive_duplicate(archive_paths_of(*config)) && !archive_paths_valid(*config)
            ==> (r matches Err(e) && e matches BuildError::Path { path } && exists|i: int|
            0 <= i < archive_paths_of(*config).len() && archive_paths_of(*config)[i] == path@
                && !valid_inside_path(path@)),
        !has_case_insensitive_duplicate(archive_paths_of(*config)) && archive_paths_valid(*config)
            && has_case_insensitive_duplicate(opf_ids_of(*config)) ==> (r matches Err(e)
            && e matches BuildError::Collision { name } && exists|j: int|
            0 <= j < opf_ids_of(*config).len() && opf_ids_of(*config)[j] == name@
                && repeats_earlier(opf_ids_of(*config), j)),
        !has_case_insensitive_duplicate(archive_paths_of(*config)) && archive_paths_valid(*config)
            && !has_case_insensitive_duplicate(opf_ids_of(*config))
            && has_case_insensitive_duplicate(page_ids_of(*config)) ==> (r matches Err(e)
            && e matches BuildError::Collision { name } && exists|j: int|
            0 <= j < page_ids_of(*config).len() && page_ids_of(*config)[j] == name@
                && repeats_earlier(page_ids_of(*config), j)),
        paths_and_ids_pass(*config) && first_unrecognized(recipe_metadata(config.metadata))
            < recipe_metadata(config.metadata).len() ==> (r matches Err(e)
            && e matches BuildError::Schema { name } && name@ == metadata_name(
            recipe_metadata(config.metadata)[first_unrecognized(recipe_metadata(config.metadata))],
        )),
        r matches Ok(p) ==> exists|u: Seq<char>, l: Option<Seq<char>>| #[trigger] plan_matches(*config, u, l, p),
{
    let uuid = new_uuid_string();
    let locale = host_locale();
    let r = plan_epub2_with(config, uuid.as_str(), &locale);
    proof {
        if r is Ok {
            assert(plan_matches(*config, uuid@, opt_view(locale), r->Ok_0));
        }
    }
    r
}

/// Where the recipe gives a Dublin Core identifier, what a build may give does
/// not depend on the random UUID: two builds of the recipe on one host give the
/// same plan.
pub proof fn lemma_plan_reproducible_with_identifier(
    config: Epub2Config,
    uuid1: Seq<char>,
    uuid2: Seq<char>,
    locale: Option<Seq<char>>,
    p: EpubPlan,
)
    requires
        exists|i: int|
            0 <= i < recipe_metadata(config.metadata).len() && (#[trigger] recipe_metadata(
                config.metadata,
            )[i] matches Metadata::DcMetadata { name, .. } && dc_element_of(name@) == Some(
                DcElement::Identifier,
            )),
    ensures
        plan_matches(config, uuid1, locale, p) == plan_matches(config, uuid2, locale, p),
{
    let md = recipe_metadata(config.metadata);
    let ids = opf_ids_of(config);
    let got = (entry_views(p.opf.metadata@), p.opf.unique_identifier@, p.ncx.doc_title@);
    if plan_matches(config, uuid1, locale, p) {
        let safe = choose|safe: Seq<char>|
            is_safe_uid(ids, safe) && got == #[trigger] metadata_result(md, safe, uuid1, locale);
        lemma_metadata_reproducible_with_identifier(md, safe, uuid1, uuid2, locale);
        assert(is_safe_uid(ids, safe) && got == metadata_result(md, safe, uuid2, locale));
    }
    if plan_matches(config, uuid2, locale, p) {
        let safe = choose|safe: Seq<char>|
            is_safe_uid(ids, safe) && got == #[trigger] metadata_result(md, safe, uuid2, locale);
        lemma_metadata_reproducible_with_identifier(md, safe, uuid2, uuid1, locale);
        assert(is_safe_uid(ids, safe) && got == metadata_result(md, safe, uuid1, locale));
    }
}

} // verus!
