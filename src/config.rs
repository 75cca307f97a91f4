use vstd::prelude::*;

verus! {

/// A rootfile of the container: a package document and its media type.
#[derive(Debug)]
pub struct Rootfile {
    pub path: String,
    pub media_type: String,
}

/// A metadata entry of the recipe: a Dublin Core element, or a custom `meta`.
#[derive(Debug)]
pub enum Metadata {
    DcMetadata {
        name: String,
        content: String,
        id: Option<String>,
        scheme: Option<String>,
        file_as: Option<String>,
        role: Option<String>,
        event: Option<String>,
        lang: Option<String>,
    },
    CustomMetadata { name: String, content: String },
}

/// A content file that the OPF manifest lists.
#[derive(Debug)]
pub struct ManifestItem {
    pub outside_path: String,
    pub inside_path_from_opf: String,
    pub media_type: String,
    pub id: String,
    pub fallback: Option<String>,
    pub fallback_style: Option<String>,
    pub required_namespace: Option<String>,
    pub required_modules: Option<String>,
}

/// A spine entry: a bare idref, or an idref with its linearity.
#[derive(Debug)]
pub enum Itemref {
    RawIdref(String),
    CookedIdref { idref: String, linear: Option<bool> },
}

/// A guide entry.
#[derive(Debug)]
pub struct Reference {
    pub reference_type: String,
    pub title: Option<String>,
    pub idref: String,
    pub fragment: Option<String>,
}

/// Overrides of the NCX's own manifest id and path.
#[derive(Debug)]
pub struct NcxMeta {
    pub manifest_id: Option<String>,
    pub manifest_path_from_opf: Option<String>,
}

/// A label in a given language.
#[derive(Debug)]
pub struct NavLabel {
    pub label: String,
    pub lang: Option<String>,
}

/// The label of a navigation entry: one plain label, or several in languages.
#[derive(Debug)]
pub enum Label {
    Simple(String),
    Complex(Vec<NavLabel>),
}

/// A node of the navigation map; `children` are indices into the map's nodes.
#[derive(Debug)]
pub struct NavPoint {
    pub label: Label,
    pub idref: String,
    pub fragment: Option<String>,
    pub children: Vec<usize>,
}

/// The navigation map as an arena of nodes with its top-level nodes in order.
#[derive(Debug)]
pub struct NavMap {
    pub nodes: Vec<NavPoint>,
    pub roots: Vec<usize>,
}

/// A page target of the page list.
#[derive(Debug)]
pub struct PageTarget {
    pub label: Label,
    pub id: String,
    pub target_type: String,
    pub value: Option<String>,
    pub idref: String,
    pub fragment: Option<String>,
}

/// A target of a navigation list.
#[derive(Debug)]
pub struct NavTarget {
    pub label: Label,
    pub idref: String,
    pub fragment: Option<String>,
}

/// A named navigation list.
#[derive(Debug)]
pub struct NavList {
    pub label: Label,
    pub list: Vec<NavTarget>,
}

/// A file stored in the archive that the manifest does not list.
#[derive(Debug)]
pub struct NonmanifestFile {
    pub outside_path: String,
    pub inside_path: String,
}

/// The typed body of an EPUB2 recipe.
#[derive(Debug)]
pub struct Epub2Config {
    pub rootfiles: Option<Vec<Rootfile>>,
    pub metadata: Option<Vec<Metadata>>,
    pub manifest: Vec<ManifestItem>,
    pub spine: Option<Vec<Itemref>>,
    pub guide: Option<Vec<Reference>>,
    pub ncx_meta: Option<NcxMeta>,
    pub navmap: Option<NavMap>,
    pub pagelist: Option<Vec<PageTarget>>,
    pub navlists: Option<Vec<NavList>>,
    pub nonmanifest_files: Option<Vec<NonmanifestFile>>,
}

/// Why a build stopped.
#[derive(Debug, PartialEq)]
pub enum BuildError {
    /// A path inside the archive is malformed.
    Path { path: String },
    /// A path or an identifier equals an earlier one up to ASCII case.
    Collision { name: String },
    /// An idref names no manifest item.
    Reference { idref: String },
    /// A Dublin Core metadata entry has a name outside the fifteen elements.
    Schema { name: String },
    /// No manifest item may stand in the spine.
    NoSpineItem,
    /// The fallback chain from this manifest item is longer than the manifest.
    FallbackCycle { id: String },
    /// The spine holds no linear entry.
    NoLinearSpineItem,
}

/// A copy of an optional string.
pub fn clone_opt(o: &Option<String>) -> (r: Option<String>)
    ensures
        r == *o,
{
    match o {
        Some(s) => Some(s.clone()),
        None => None,
    }
}

} // verus!
