use vstd::prelude::*;

use crate::config::{clone_opt, BuildError, Epub2Config, Itemref, ManifestItem, Reference};
use crate::text::{str_eq, views};

verus! {

/// An item of the OPF manifest.
#[derive(Debug, PartialEq)]
pub struct OpfItem {
    pub id: String,
    pub href: String,
    pub media_type: String,
    pub fallback: Option<String>,
    pub fallback_style: Option<String>,
    pub required_namespace: Option<String>,
    pub required_modules: Option<String>,
}

/// An entry of the OPF spine; a non-linear one is written `linear="no"`.
#[derive(Debug, PartialEq)]
pub struct SpineRef {
    pub idref: String,
    pub linear: bool,
}

/// The OPF spine, with the NCX's manifest id as its `toc`.
#[derive(Debug, PartialEq)]
pub struct Spine {
    pub toc: String,
    pub itemrefs: Vec<SpineRef>,
}

/// An entry of the OPF guide.
#[derive(Debug, PartialEq)]
pub struct GuideRef {
    pub reference_type: String,
    pub title: Option<String>,
    pub href: String,
}

/// Index of the first manifest item with this id, or -1.
pub open spec fn index_of_id(m: Seq<ManifestItem>, id: Seq<char>) -> int
    decreases m.len(),
{
    if m.len() == 0 {
        -1
    } else if m[0].id@ == id {
        0
    } else if index_of_id(m.drop_first(), id) < 0 {
        -1
    } else {
        index_of_id(m.drop_first(), id) + 1
    }
}

proof fn lemma_index_of_id(m: Seq<ManifestItem>, id: Seq<char>, i: int)
    requires
        0 <= i <= m.len(),
        forall|j: int| 0 <= j < i ==> (#[trigger] m[j]).id@ != id,
    ensures
        i < m.len() && m[i].id@ == id ==> index_of_id(m, id) == i,
        i == m.len() ==> index_of_id(m, id) == -1,
    decreases m.len(),
{
    if m.len() > 0 && i > 0 {
        assert forall|j: int| 0 <= j < i - 1 implies (#[trigger] m.drop_first()[j]).id@ != id by {
            assert(m.drop_first()[j] == m[j + 1]);
        }
        lemma_index_of_id(m.drop_first(), id, i - 1);
        assert(m[0].id@ != id);
    }
}

/// `p` with `#fragment` appended where a fragment is given.
pub open spec fn with_fragment(p: Seq<char>, fragment: Option<String>) -> Seq<char> {
    match fragment {
        None => p,
        Some(f) => p + seq!['#'] + f@,
    }
}

/// The index of the first manifest item with this id.
pub fn find_manifest_item(manifest: &Vec<ManifestItem>, id: &str) -> (r: Option<usize>)
    ensures
        r is None <==> index_of_id(manifest@, id@) < 0,
        r matches Some(i) ==> i == index_of_id(manifest@, id@) && i < manifest@.len(),
{
    let mut i: usize = 0;
    while i < manifest.len()
        invariant
            i <= manifest@.len(),
            forall|j: int| 0 <= j < i ==> (#[trigger] manifest@[j]).id@ != id@,
        decreases manifest@.len() - i,
    {
        if str_eq(manifest[i].id.as_str(), id) {
            proof {
                lemma_index_of_id(manifest@, id@, i as int);
            }
            return Some(i);
        }
        i = i + 1;
    }
    proof {
        lemma_index_of_id(manifest@, id@, i as int);
    }
    None
}

fn with_fragment_string(p: &String, fragment: &Option<String>) -> (r: String)
    ensures
        r@ == with_fragment(p@, *fragment),
{
    proof {
        reveal_strlit("#");
    }
    match fragment {
        None => p.clone(),
        Some(f) => {
            let r = p.clone().concat("#").concat(f.as_str());
            r
        },
    }
}

/// The manifest href that an idref names, relative to the OPF, with the
/// fragment appended; fails where no manifest item has that id.
pub fn get_manifest_path_from_idref(
    config: &Epub2Config,
    idref: &str,
    fragment: &Option<String>,
) -> (r: Result<String, BuildError>)
    ensures
        index_of_id(config.manifest@, idref@) < 0 <==> r is Err,
        r matches Err(e) ==> (e matches BuildError::Reference { idref: x } && x@ == idref@),
        r matches Ok(p) ==> p@ == with_fragment(
            config.manifest@[index_of_id(config.manifest@, idref@)].inside_path_from_opf@,
            *fragment,
        ),
{
    match find_manifest_item(&config.manifest, idref) {
        None => Err(BuildError::Reference { idref: idref.to_owned() }),
        Some(i) => Ok(with_fragment_string(&config.manifest[i].inside_path_from_opf, fragment)),
    }
}

/// Whether the item with this id has one of the media types, directly or
/// through its chain of fallbacks; `None` where the chain runs on for more than
/// `fuel` steps.
pub open spec fn falls_back_within(
    m: Seq<ManifestItem>,
    id: Seq<char>,
    types: Seq<Seq<char>>,
    fuel: nat,
) -> Option<bool>
    decreases fuel,
{
    let i = index_of_id(m, id);
    if i < 0 {
        Some(false)
    } else if types.contains(m[i].media_type@) {
        Some(true)
    } else {
        match m[i].fallback {
            None => Some(false),
            Some(f) => if fuel == 0 {
                None
            } else {
                falls_back_within(m, f@, types, (fuel - 1) as nat)
            },
        }
    }
}

fn contains_str(v: &Vec<String>, s: &str) -> (r: bool)
    ensures
        r == views(v@).contains(s@),
{
    let mut i: usize = 0;
    while i < v.len()
        invariant
            i <= v@.len(),
            forall|j: int| 0 <= j < i ==> views(v@)[j] != s@,
        decreases v@.len() - i,
    {
        if str_eq(v[i].as_str(), s) {
            assert(views(v@)[i as int] == s@);
            return true;
        }
        i = i + 1;
    }
    false
}

/// Whether the manifest item with this id has one of the media types, directly
/// or through its fallbacks; a chain longer than the manifest is a cycle and
/// fails, naming the id it started from.
pub fn id_falls_back_to_types(config: &Epub2Config, id: &str, target_types: &Vec<String>) -> (r:
    Result<bool, BuildError>)
    ensures
        match falls_back_within(
            config.manifest@,
            id@,
            views(target_types@),
            config.manifest@.len(),
        ) {
            None => r matches Err(e) && e matches BuildError::FallbackCycle { id: x } && x@ == id@,
            Some(b) => r == Ok::<bool, BuildError>(b),
        },
{
    let m = &config.manifest;
    let mut cur: String = id.to_owned();
    let mut fuel: usize = m.len();
    loop
        invariant
            fuel <= m@.len(),
            m == &config.manifest,
            falls_back_within(m@, id@, views(target_types@), m@.len()) == falls_back_within(
                m@,
                cur@,
                views(target_types@),
                fuel as nat,
            ),
        decreases fuel,
    {
        match find_manifest_item(m, cur.as_str()) {
            None => {
                return Ok(false);
            },
            Some(i) => {
                if contains_str(target_types, m[i].media_type.as_str()) {
                    return Ok(true);
                }
                match &m[i].fallback {
                    None => {
                        return Ok(false);
                    },
                    Some(f) => {
                        if fuel == 0 {
                            return Err(BuildError::FallbackCycle { id: id.to_owned() });
                        }
                        cur = f.clone();
                        fuel = fuel - 1;
                    },
                }
            },
        }
    }
}

/// The media types that may stand in the spine.
pub open spec fn spine_types() -> Seq<Seq<char>> {
    seq![
        seq!['a', 'p', 'p', 'l', 'i', 'c', 'a', 't', 'i', 'o', 'n', '/', 'x', 'h', 't', 'm', 'l', '+', 'x', 'm', 'l'],
        seq!['a', 'p', 'p', 'l', 'i', 'c', 'a', 't', 'i', 'o', 'n', '/', 'x', '-', 'd', 't', 'b', 'o', 'o', 'k', '+', 'x', 'm', 'l'],
    ]
}

fn spine_type_names() -> (r: Vec<String>)
    ensures
        views(r@) == spine_types(),
{
    proof {
        reveal_strlit("application/xhtml+xml");
        reveal_strlit("application/x-dtbook+xml");
    }
    let mut v: Vec<String> = Vec::new();
    v.push(String::from_str("application/xhtml+xml"));
    v.push(String::from_str("application/x-dtbook+xml"));
    assert(views(v@)[0] == v@[0]@);
    assert(views(v@)[1] == v@[1]@);
    assert(v@[0]@ =~= spine_types()[0]);
    assert(v@[1]@ =~= spine_types()[1]);
    assert(views(v@) =~= spine_types());
    v
}

/// Whether item `i` may stand in the spine: `Some(true)` where it has a spine
/// media type directly or by fallback, `None` where its fallback chain cycles.
pub open spec fn spine_status(m: Seq<ManifestItem>, i: int) -> Option<bool> {
    if spine_types().contains(m[i].media_type@) {
        Some(true)
    } else {
        falls_back_within(m, m[i].id@, spine_types(), m.len())
    }
}

/// Where the search for a spine item, from item `from` on, stops: at the first
/// item that may stand in the spine or whose chain cycles, else at the end.
pub open spec fn spine_stop(m: Seq<ManifestItem>, from: int) -> int
    decreases m.len() - from,
{
    if from >= m.len() || from < 0 {
        m.len() as int
    } else if spine_status(m, from) == Some(false) {
        spine_stop(m, from + 1)
    } else {
        from
    }
}

/// The index of the first manifest item that may stand in the spine.
pub fn first_spine_item(config: &Epub2Config) -> (r: Result<usize, BuildError>)
    ensures
        ({
            let m = config.manifest@;
            let s = spine_stop(m, 0);
            &&& s == m.len() <==> r == Err::<usize, BuildError>(BuildError::NoSpineItem)
            &&& s < m.len() && spine_status(m, s) is None <==> (r matches Err(e)
                && e matches BuildError::FallbackCycle { id } && id@ == m[s].id@)
            &&& s < m.len() && spine_status(m, s) == Some(true) <==> r == Ok::<usize, BuildError>(
                s as usize,
            )
            &&& r matches Ok(i) ==> i == s && i < m.len()
            &&& r is Err <==> (s == m.len() || (s < m.len() && spine_status(m, s) is None))
        }),
{
    let types = spine_type_names();
    let mut i: usize = 0;
    while i < config.manifest.len()
        invariant
            i <= config.manifest@.len(),
            views(types@) == spine_types(),
            spine_stop(config.manifest@, 0) == spine_stop(config.manifest@, i as int),
        decreases config.manifest@.len() - i,
    {
        let item = &config.manifest[i];
        if contains_str(&types, item.media_type.as_str()) {
            return Ok(i);
        }
        match id_falls_back_to_types(config, item.id.as_str(), &types) {
            Err(_) => {
                return Err(BuildError::FallbackCycle { id: item.id.clone() });
            },
            Ok(true) => {
                return Ok(i);
            },
            Ok(false) => {},
        }
        i = i + 1;
    }
    Err(BuildError::NoSpineItem)
}

/// The idref of a spine entry.
pub open spec fn itemref_idref(r: Itemref) -> String {
    match r {
        Itemref::RawIdref(id) => id,
        Itemref::CookedIdref { idref, .. } => idref,
    }
}

/// The spine entry written for an entry of the recipe: linear unless marked
/// `linear = false`.
pub open spec fn spine_ref_of(r: Itemref) -> SpineRef {
    match r {
        Itemref::RawIdref(id) => SpineRef { idref: id, linear: true },
        Itemref::CookedIdref { idref, linear } => SpineRef {
            idref: idref,
            linear: linear != Some(false),
        },
    }
}

/// Index of the first entry of the list whose idref names no manifest item, or
/// the list's length.
pub open spec fn first_unresolved_itemref(m: Seq<ManifestItem>, l: Seq<Itemref>) -> int
    decreases l.len(),
{
    if l.len() == 0 {
        0
    } else if index_of_id(m, itemref_idref(l[0])@) < 0 {
        0
    } else {
        1 + first_unresolved_itemref(m, l.drop_first())
    }
}

/// What building the spine gives for the recipe.
pub open spec fn spine_outcome(config: Epub2Config, ncx_id: Seq<char>, r: Result<Spine, BuildError>) -> bool {
    let m = config.manifest@;
    let s = spine_stop(m, 0);
    &&& s == m.len() ==> r == Err::<Spine, BuildError>(BuildError::NoSpineItem)
    &&& s < m.len() && spine_status(m, s) is None ==> (r matches Err(e)
        && e matches BuildError::FallbackCycle { id } && id@ == m[s].id@)
    &&& s < m.len() && spine_status(m, s) == Some(true) ==> match config.spine {
        None => r matches Ok(sp) && sp.toc@ == ncx_id && sp.itemrefs@ == seq![
            SpineRef { idref: m[s].id, linear: true },
        ],
        Some(l) => {
            let u = first_unresolved_itemref(m, l@);
            &&& u < l@.len() ==> (r matches Err(e) && e matches BuildError::Reference {
                idref,
            } && idref@ == itemref_idref(l@[u])@)
            &&& u == l@.len() ==> (r matches Ok(sp) && sp.toc@ == ncx_id
                && sp.itemrefs@ == l@.map_values(|x: Itemref| spine_ref_of(x)))
        },
    }
}

/// Whether building the spine fails for the recipe.
pub open spec fn spine_fails(config: Epub2Config) -> bool {
    let m = config.manifest@;
    let s = spine_stop(m, 0);
    s == m.len() || spine_status(m, s) is None || (config.spine matches Some(l)
        && first_unresolved_itemref(m, l@) < l@.len())
}

/// The spine: the recipe's entries where it gives them, else one entry for the
/// first manifest item that may stand in the spine; `toc` is the NCX's id. Fails
/// where no manifest item may stand in the spine, where a fallback chain that
/// the search meets cycles, or where an idref names no manifest item.
pub fn get_spine(config: &Epub2Config, ncx_id: &str) -> (r: Result<Spine, BuildError>)
    ensures
        spine_outcome(*config, ncx_id@, r),
        r is Err <==> spine_fails(*config),
{
    let first = first_spine_item(config)?;
    let mut itemrefs: Vec<SpineRef> = Vec::new();
    match &config.spine {
        Some(spine) => {
            let mut i: usize = 0;
            assert(spine@.skip(0) =~= spine@);
            assert(spine@.take(0).map_values(|x: Itemref| spine_ref_of(x)) =~= Seq::<SpineRef>::empty());
            while i < spine.len()
                invariant
                    i <= spine@.len(),
                    config.spine == Some(*spine),
                    spine_stop(config.manifest@, 0) == first as int,
                    first < config.manifest@.len(),
                    spine_status(config.manifest@, first as int) == Some(true),
                    first_unresolved_itemref(config.manifest@, spine@)
                        == i + first_unresolved_itemref(config.manifest@, spine@.skip(i as int)),
                    itemrefs@ == spine@.take(i as int).map_values(|x: Itemref| spine_ref_of(x)),
                decreases spine@.len() - i,
            {
                let (idref, linear) = match &spine[i] {
                    Itemref::RawIdref(idref) => (idref, true),
                    Itemref::CookedIdref { idref, linear } => (
                        idref,
                        match linear {
                            Some(false) => false,
                            _ => true,
                        },
                    ),
                };
                assert(spine@.skip(i as int)[0] == spine@[i as int]);
                assert(spine@.skip(i as int).drop_first() =~= spine@.skip(i + 1));
                assert(idref@ == itemref_idref(spine@[i as int])@);
                if find_manifest_item(&config.manifest, idref.as_str()).is_none() {
                    assert(first_unresolved_itemref(config.manifest@, spine@.skip(i as int)) == 0);
                    assert(first_unresolved_itemref(config.manifest@, spine@) == i);
                    let e = idref.clone();
                    assert(e@ == itemref_idref(spine@[i as int])@);
                    return Err(BuildError::Reference { idref: e });
                }
                itemrefs.push(SpineRef { idref: idref.clone(), linear });
                assert(spine@.take(i + 1).map_values(|x: Itemref| spine_ref_of(x))
                    =~= spine@.take(i as int).map_values(|x: Itemref| spine_ref_of(x)).push(
                    spine_ref_of(spine@[i as int]),
                ));
                i = i + 1;
            }
            assert(spine@.take(spine@.len() as int) =~= spine@);
            assert(spine@.skip(spine@.len() as int) =~= Seq::<Itemref>::empty());
        },
        None => {
            itemrefs.push(SpineRef { idref: config.manifest[first].id.clone(), linear: true });
            assert(itemrefs@ =~= seq![SpineRef { idref: config.manifest@[first as int].id, linear: true }]);
        },
    }
    Ok(Spine { toc: ncx_id.to_owned(), itemrefs })
}

/// Index of the first guide entry whose idref names no manifest item, or the
/// number of entries.
pub open spec fn first_unresolved_reference(m: Seq<ManifestItem>, l: Seq<Reference>) -> int
    decreases l.len(),
{
    if l.len() == 0 {
        0
    } else if index_of_id(m, l[0].idref@) < 0 {
        0
    } else {
        1 + first_unresolved_reference(m, l.drop_first())
    }
}

/// The href that an idref and fragment resolve to in the manifest.
pub open spec fn resolved_href(m: Seq<ManifestItem>, idref: Seq<char>, fragment: Option<String>) -> Seq<char> {
    with_fragment(m[index_of_id(m, idref)].inside_path_from_opf@, fragment)
}

/// The guide entry written for a guide entry of the recipe.
pub open spec fn guide_ref_matches(g: GuideRef, r: Reference, m: Seq<ManifestItem>) -> bool {
    &&& g.reference_type == r.reference_type
    &&& g.title == r.title
    &&& g.href@ == resolved_href(m, r.idref@, r.fragment)
}

/// What building the guide gives for the recipe.
pub open spec fn guide_outcome(config: Epub2Config, r: Result<Option<Vec<GuideRef>>, BuildError>) -> bool {
    let m = config.manifest@;
    match config.guide {
        None => r matches Ok(None),
        Some(l) => {
            let u = first_unresolved_reference(m, l@);
            &&& u < l@.len() ==> (r matches Err(e) && e matches BuildError::Reference { idref }
                && idref@ == l@[u].idref@)
            &&& u == l@.len() ==> (r matches Ok(Some(g)) && g@.len() == l@.len() && forall|i: int|
                0 <= i < l@.len() ==> guide_ref_matches(#[trigger] g@[i], l@[i], m))
        },
    }
}

pub open spec fn guide_fails(config: Epub2Config) -> bool {
    config.guide matches Some(l) && first_unresolved_reference(config.manifest@, l@) < l@.len()
}

proof fn lemma_first_unresolved_reference_bound(m: Seq<ManifestItem>, l: Seq<Reference>)
    ensures
        0 <= first_unresolved_reference(m, l) <= l.len(),
    decreases l.len(),
{
    if l.len() > 0 {
        lemma_first_unresolved_reference_bound(m, l.drop_first());
    }
}

/// The guide, each entry's idref and fragment resolved to its manifest href;
/// fails at the first idref that names no manifest item.
pub fn get_guide(config: &Epub2Config) -> (r: Result<Option<Vec<GuideRef>>, BuildError>)
    ensures
        guide_outcome(*config, r),
        r is Err <==> guide_fails(*config),
{
    match &config.guide {
        None => Ok(None),
        Some(guide) => {
            let mut references: Vec<GuideRef> = Vec::new();
            let mut i: usize = 0;
            assert(guide@.skip(0) =~= guide@);
            while i < guide.len()
                invariant
                    i <= guide@.len(),
                    config.guide == Some(*guide),
                    first_unresolved_reference(config.manifest@, guide@) == i
                        + first_unresolved_reference(config.manifest@, guide@.skip(i as int)),
                    references@.len() == i,
                    forall|j: int|
                        0 <= j < i ==> guide_ref_matches(
                            #[trigger] references@[j],
                            guide@[j],
                            config.manifest@,
                        ),
                decreases guide@.len() - i,
            {
                let reference = &guide[i];
                assert(guide@.skip(i as int)[0] == guide@[i as int]);
                assert(guide@.skip(i as int).drop_first() =~= guide@.skip(i + 1));
                let href = match get_manifest_path_from_idref(
                    config,
                    reference.idref.as_str(),
                    &reference.fragment,
                ) {
                    Ok(h) => h,
                    Err(e) => {
                        assert(first_unresolved_reference(config.manifest@, guide@.skip(i as int)) == 0);
                        return Err(e);
                    },
                };
                references.push(
                    GuideRef {
                        reference_type: reference.reference_type.clone(),
                        title: clone_opt(&reference.title),
                        href,
                    },
                );
                i = i + 1;
            }
            proof {
                lemma_first_unresolved_reference_bound(config.manifest@, guide@);
                assert(guide@.skip(guide@.len() as int) =~= Seq::<Reference>::empty());
            }
            Ok(Some(references))
        },
    }
}

/// The OPF manifest item written for a manifest item of the recipe.
pub open spec fn opf_item_of(m: ManifestItem) -> OpfItem {
    OpfItem {
        id: m.id,
        href: m.inside_path_from_opf,
        media_type: m.media_type,
        fallback: m.fallback,
        fallback_style: m.fallback_style,
        required_namespace: m.required_namespace,
        required_modules: m.required_modules,
    }
}

/// The OPF manifest for the recipe.
pub open spec fn manifest_outcome(config: Epub2Config, ncx_id: Seq<char>, ncx_path_from_opf: Seq<char>, r: Seq<OpfItem>) -> bool {
    &&& r.len() == config.manifest@.len() + 1
    &&& r[0].id@ == ncx_id
    &&& r[0].href@ == ncx_path_from_opf
    &&& r[0].media_type@ == "application/x-dtbncx+xml"@
    &&& r[0].fallback is None && r[0].fallback_style is None
    &&& r[0].required_namespace is None && r[0].required_modules is None
    &&& forall|i: int| 0 <= i < config.manifest@.len() ==> r[i + 1] == opf_item_of(#[trigger] config.manifest@[i])
}

/// The OPF manifest: first the NCX, with media type `application/x-dtbncx+xml`,
/// then one item for each manifest item of the recipe, in order.
pub fn get_manifest(config: &Epub2Config, ncx_id: &str, ncx_path_from_opf: &str) -> (r: Vec<OpfItem>)
    ensures
        manifest_outcome(*config, ncx_id@, ncx_path_from_opf@, r@),
{
    let mut items: Vec<OpfItem> = Vec::new();
    items.push(
        OpfItem {
            id: ncx_id.to_owned(),
            href: ncx_path_from_opf.to_owned(),
            media_type: String::from_str("application/x-dtbncx+xml"),
            fallback: None,
            fallback_style: None,
            required_namespace: None,
            required_modules: None,
        },
    );
    let mut i: usize = 0;
    while i < config.manifest.len()
        invariant
            i <= config.manifest@.len(),
            items@.len() == i + 1,
            items@[0].id@ == ncx_id@,
            items@[0].href@ == ncx_path_from_opf@,
            items@[0].media_type@ == "application/x-dtbncx+xml"@,
            items@[0].fallback is None && items@[0].fallback_style is None,
            items@[0].required_namespace is None && items@[0].required_modules is None,
            forall|j: int| 0 <= j < i ==> items@[j + 1] == opf_item_of(#[trigger] config.manifest@[j]),
        decreases config.manifest@.len() - i,
    {
        let item = &config.manifest[i];
        items.push(
            OpfItem {
                id: item.id.clone(),
                href: item.inside_path_from_opf.clone(),
                media_type: item.media_type.clone(),
                fallback: clone_opt(&item.fallback),
                fallback_style: clone_opt(&item.fallback_style),
                required_namespace: clone_opt(&item.required_namespace),
                required_modules: clone_opt(&item.required_modules),
            },
        );
        i = i + 1;
    }
    items
}

/// Index of the first linear spine entry, or -1.
pub open spec fn first_linear(refs: Seq<SpineRef>) -> int
    decreases refs.len(),
{
    if refs.len() == 0 {
        -1
    } else if first_linear(refs.drop_last()) >= 0 {
        first_linear(refs.drop_last())
    } else if refs.last().linear {
        refs.len() - 1
    } else {
        -1
    }
}

proof fn lemma_first_linear(refs: Seq<SpineRef>, i: int)
    requires
        0 <= i <= refs.len(),
        forall|j: int| 0 <= j < i ==> !(#[trigger] refs[j]).linear,
    ensures
        i < refs.len() && refs[i].linear ==> first_linear(refs) == i,
        i == refs.len() ==> first_linear(refs) == -1,
    decreases refs.len(),
{
    if refs.len() > 0 {
        if i < refs.len() && refs[i].linear {
            if i < refs.len() - 1 {
                lemma_first_linear(refs.drop_last(), i);
                assert(refs.drop_last()[i] == refs[i]);
            } else {
                lemma_first_linear(refs.drop_last(), refs.len() - 1);
            }
        } else if i == refs.len() {
            lemma_first_linear(refs.drop_last(), refs.len() - 1);
        }
    }
}

/// The idref of the first linear spine entry; fails where the spine has no
/// linear entry.
pub fn first_linear_idref(spine: &Spine) -> (r: Result<String, BuildError>)
    ensures
        ({
            let f = first_linear(spine.itemrefs@);
            &&& f < 0 ==> r == Err::<String, BuildError>(BuildError::NoLinearSpineItem)
            &&& f >= 0 ==> (r matches Ok(h) && h@ == spine.itemrefs@[f].idref@)
        }),
{
    let mut i: usize = 0;
    while i < spine.itemrefs.len()
        invariant
            i <= spine.itemrefs@.len(),
            forall|j: int| 0 <= j < i ==> !(#[trigger] spine.itemrefs@[j]).linear,
        decreases spine.itemrefs@.len() - i,
    {
        if spine.itemrefs[i].linear {
            proof {
                lemma_first_linear(spine.itemrefs@, i as int);
            }
            return Ok(spine.itemrefs[i].idref.clone());
        }
        i = i + 1;
    }
    proof {
        lemma_first_linear(spine.itemrefs@, i as int);
    }
    Err(BuildError::NoLinearSpineItem)
}

pub proof fn lemma_first_unresolved_itemref(m: Seq<ManifestItem>, l: Seq<Itemref>)
    ensures
        0 <= first_unresolved_itemref(m, l) <= l.len(),
        first_unresolved_itemref(m, l) < l.len() ==> index_of_id(
            m,
            itemref_idref(l[first_unresolved_itemref(m, l)])@,
        ) < 0,
    decreases l.len(),
{
    if l.len() > 0 && index_of_id(m, itemref_idref(l[0])@) >= 0 {
        lemma_first_unresolved_itemref(m, l.drop_first());
    }
}

pub proof fn lemma_first_unresolved_reference(m: Seq<ManifestItem>, l: Seq<Reference>)
    ensures
        0 <= first_unresolved_reference(m, l) <= l.len(),
        first_unresolved_reference(m, l) < l.len() ==> index_of_id(
            m,
            l[first_unresolved_reference(m, l)].idref@,
        ) < 0,
    decreases l.len(),
{
    if l.len() > 0 && index_of_id(m, l[0].idref@) >= 0 {
        lemma_first_unresolved_reference(m, l.drop_first());
    }
}

pub proof fn lemma_spine_stop_bound(m: Seq<ManifestItem>, from: int)
    requires
        0 <= from,
    ensures
        from <= m.len() ==> from <= spine_stop(m, from),
        spine_stop(m, from) <= m.len(),
        spine_stop(m, from) < m.len() ==> spine_status(m, spine_stop(m, from)) != Some(false),
    decreases m.len() - from,
{
    if from < m.len() && spine_status(m, from) == Some(false) {
        lemma_spine_stop_bound(m, from + 1);
    }
}

pub proof fn lemma_first_linear_bound(refs: Seq<SpineRef>)
    ensures
        -1 <= first_linear(refs) < refs.len(),
        first_linear(refs) >= 0 ==> refs[first_linear(refs)].linear,
    decreases refs.len(),
{
    if refs.len() > 0 {
        lemma_first_linear_bound(refs.drop_last());
    }
}

pub proof fn lemma_no_linear(refs: Seq<SpineRef>, i: int)
    requires
        first_linear(refs) < 0,
        0 <= i < refs.len(),
    ensures
        !refs[i].linear,
    decreases refs.len(),
{
    if i < refs.len() - 1 {
        assert(refs.drop_last()[i] == refs[i]);
        lemma_no_linear(refs.drop_last(), i);
    }
}

pub proof fn lemma_index_of_present(m: Seq<ManifestItem>, i: int)
    requires
        0 <= i < m.len(),
    ensures
        index_of_id(m, m[i].id@) >= 0,
    decreases m.len(),
{
    if i > 0 && m[0].id@ != m[i].id@ {
        assert(m.drop_first()[i - 1] == m[i]);
        lemma_index_of_present(m.drop_first(), i - 1);
    }
}

pub proof fn lemma_itemrefs_resolve(m: Seq<ManifestItem>, l: Seq<Itemref>, i: int)
    requires
        first_unresolved_itemref(m, l) == l.len(),
        0 <= i < l.len(),
    ensures
        index_of_id(m, itemref_idref(l[i])@) >= 0,
    decreases l.len(),
{
    if i > 0 {
        assert(l.drop_first()[i - 1] == l[i]);
        lemma_itemrefs_resolve(m, l.drop_first(), i - 1);
    }
}

} // verus!
