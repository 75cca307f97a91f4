use vstd::prelude::*;

use crate::config::{
    clone_opt, BuildError, Epub2Config, Label, ManifestItem, NavLabel, NavList, NavPoint, NavTarget,
    PageTarget,
};
use crate::opf::{find_manifest_item, index_of_id, with_fragment};
use crate::paths::{get_ncx_path_to_file, join_path, relative_components, valid_inside_path};
use crate::text::{join_slash, split_slash};

verus! {

/// A `navLabel` of the NCX.
#[derive(Debug, PartialEq)]
pub struct OutLabel {
    pub lang: Option<String>,
    pub text: String,
}

/// A node of the NCX navigation map; `children` are indices into its nodes.
#[derive(Debug, PartialEq)]
pub struct NcxNavPoint {
    pub labels: Vec<OutLabel>,
    pub content: String,
    pub children: Vec<usize>,
}

/// The NCX navigation map: its nodes and its top-level nodes in order.
#[derive(Debug, PartialEq)]
pub struct NcxNavMap {
    pub nodes: Vec<NcxNavPoint>,
    pub roots: Vec<usize>,
}

/// A `pageTarget` of the NCX page list.
#[derive(Debug, PartialEq)]
pub struct NcxPageTarget {
    pub id: String,
    pub target_type: String,
    pub value: Option<String>,
    pub labels: Vec<OutLabel>,
    pub content: String,
}

/// A `navTarget` of an NCX navigation list.
#[derive(Debug, PartialEq)]
pub struct NcxNavTarget {
    pub labels: Vec<OutLabel>,
    pub content: String,
}

/// An NCX navigation list.
#[derive(Debug, PartialEq)]
pub struct NcxNavList {
    pub labels: Vec<OutLabel>,
    pub targets: Vec<NcxNavTarget>,
}

/// The NCX document.
#[derive(Debug, PartialEq)]
pub struct NcxDocument {
    pub uid: String,
    pub doc_title: String,
    pub navmap: NcxNavMap,
    pub pagelist: Option<Vec<NcxPageTarget>>,
    pub navlists: Vec<NcxNavList>,
}

/// The `navLabel`s written for a label of the recipe.
pub open spec fn labels_of(l: Label) -> Seq<OutLabel> {
    match l {
        Label::Simple(s) => seq![OutLabel { lang: None, text: s }],
        Label::Complex(v) => v@.map_values(|x: NavLabel| OutLabel { lang: x.lang, text: x.label }),
    }
}

/// The paths of the NCX and of every manifest item, appended to the OPF's
/// directory, are valid in the archive.
pub open spec fn ncx_paths_valid(config: Epub2Config, opf_parent: Seq<char>, ncx_path_from_opf: Seq<char>) -> bool {
    &&& valid_inside_path(join_path(opf_parent, ncx_path_from_opf))
    &&& forall|i: int|
        0 <= i < config.manifest@.len() ==> valid_inside_path(
            join_path(opf_parent, (#[trigger] config.manifest@[i]).inside_path_from_opf@),
        )
}

/// The href, relative to the NCX, of the manifest item that an idref names, with
/// the fragment appended.
pub open spec fn ncx_href(
    config: Epub2Config,
    opf_parent: Seq<char>,
    ncx_path_from_opf: Seq<char>,
    idref: Seq<char>,
    fragment: Option<String>,
) -> Seq<char> {
    let m = config.manifest@;
    let target = m[index_of_id(m, idref)].inside_path_from_opf@;
    with_fragment(
        join_slash(
            relative_components(
                split_slash(join_path(opf_parent, ncx_path_from_opf)),
                split_slash(join_path(opf_parent, target)),
            ),
        ),
        fragment,
    )
}

/// Every idref names a manifest item.
pub open spec fn all_resolve(m: Seq<ManifestItem>, ids: Seq<Seq<char>>) -> bool {
    forall|i: int| 0 <= i < ids.len() ==> index_of_id(m, #[trigger] ids[i]) >= 0
}

/// `e` names the first idref that names no manifest item.
pub open spec fn names_first_unresolved(m: Seq<ManifestItem>, ids: Seq<Seq<char>>, e: BuildError) -> bool {
    exists|u: int|
        0 <= u < ids.len() && index_of_id(m, #[trigger] ids[u]) < 0 && (forall|j: int|
            0 <= j < u ==> index_of_id(m, #[trigger] ids[j]) >= 0) && (e matches BuildError::Reference {
            idref,
        } && idref@ == ids[u])
}

fn convert_labels(l: &Label) -> (r: Vec<OutLabel>)
    ensures
        r@ == labels_of(*l),
{
    match l {
        Label::Simple(s) => {
            let mut v: Vec<OutLabel> = Vec::new();
            v.push(OutLabel { lang: None, text: s.clone() });
            assert(v@ =~= labels_of(*l));
            v
        },
        Label::Complex(labels) => {
            let mut v: Vec<OutLabel> = Vec::new();
            let mut i: usize = 0;
            while i < labels.len()
                invariant
                    i <= labels@.len(),
                    v@ == labels@.take(i as int).map_values(
                        |x: NavLabel| OutLabel { lang: x.lang, text: x.label },
                    ),
                decreases labels@.len() - i,
            {
                v.push(OutLabel { lang: clone_opt(&labels[i].lang), text: labels[i].label.clone() });
                assert(labels@.take(i + 1).map_values(
                    |x: NavLabel| OutLabel { lang: x.lang, text: x.label },
                ) =~= labels@.take(i as int).map_values(
                    |x: NavLabel| OutLabel { lang: x.lang, text: x.label },
                ).push(OutLabel { lang: labels@[i as int].lang, text: labels@[i as int].label }));
                i = i + 1;
            }
            assert(labels@.take(labels@.len() as int) =~= labels@);
            v
        },
    }
}

/// The href, relative to the NCX, of the manifest item that an idref names, with
/// the fragment appended; fails where no manifest item has that id.
pub fn get_ncx_path_to_file_from_idref(
    config: &Epub2Config,
    idref: &str,
    fragment: &Option<String>,
    opf_parent_path: &str,
    ncx_path_from_opf: &str,
) -> (r: Result<String, BuildError>)
    requires
        ncx_paths_valid(*config, opf_parent_path@, ncx_path_from_opf@),
    ensures
        index_of_id(config.manifest@, idref@) < 0 <==> r is Err,
        r matches Err(e) ==> (e matches BuildError::Reference { idref: x } && x@ == idref@),
        r matches Ok(h) ==> h@ == ncx_href(
            *config,
            opf_parent_path@,
            ncx_path_from_opf@,
            idref@,
            *fragment,
        ),
{
    proof {
        reveal_strlit("#");
    }
    match find_manifest_item(&config.manifest, idref) {
        None => Err(BuildError::Reference { idref: idref.to_owned() }),
        Some(i) => {
            let target = &config.manifest[i].inside_path_from_opf;
            assert(valid_inside_path(join_path(opf_parent_path@, config.manifest@[i as int].inside_path_from_opf@)));
            let href = get_ncx_path_to_file(opf_parent_path, ncx_path_from_opf, target.as_str());
            match fragment {
                None => Ok(href),
                Some(f) => Ok(href.concat("#").concat(f.as_str())),
            }
        },
    }
}

/// The NCX node written for a node of the recipe's navigation map.
pub open spec fn navpoint_matches(
    out: NcxNavPoint,
    p: NavPoint,
    config: Epub2Config,
    opf_parent: Seq<char>,
    ncx_path_from_opf: Seq<char>,
) -> bool {
    &&& out.labels@ == labels_of(p.label)
    &&& out.content@ == ncx_href(config, opf_parent, ncx_path_from_opf, p.idref@, p.fragment)
    &&& out.children@ == p.children@
}

/// The NCX node for a node of the recipe's navigation map: its labels, the href
/// from the NCX to what its idref names, and the same children; fails where the
/// idref names no manifest item.
pub fn convert_navpoint(
    config: &Epub2Config,
    opf_parent_path: &str,
    ncx_path_from_opf: &str,
    other_format_navpoint: &NavPoint,
) -> (r: Result<NcxNavPoint, BuildError>)
    requires
        ncx_paths_valid(*config, opf_parent_path@, ncx_path_from_opf@),
    ensures
        index_of_id(config.manifest@, other_format_navpoint.idref@) < 0 <==> r is Err,
        r matches Err(e) ==> (e matches BuildError::Reference { idref } && idref@
            == other_format_navpoint.idref@),
        r matches Ok(p) ==> navpoint_matches(
            p,
            *other_format_navpoint,
            *config,
            opf_parent_path@,
            ncx_path_from_opf@,
        ),
{
    let content = get_ncx_path_to_file_from_idref(
        config,
        other_format_navpoint.idref.as_str(),
        &other_format_navpoint.fragment,
        opf_parent_path,
        ncx_path_from_opf,
    )?;
    Ok(
        NcxNavPoint {
            labels: convert_labels(&other_format_navpoint.label),
            content,
            children: other_format_navpoint.children.clone(),
        },
    )
}

pub open spec fn navpoint_ids(nodes: Seq<NavPoint>) -> Seq<Seq<char>> {
    nodes.map_values(|p: NavPoint| p.idref@)
}

/// What building the navigation map gives: without one in the recipe, a single
/// node labelled with the title whose href leads from the NCX to the item that
/// the first linear spine entry names;
/// else one node for each node of the recipe, with the same top-level nodes.
pub open spec fn navmap_outcome(
    config: Epub2Config,
    opf_parent: Seq<char>,
    ncx_path_from_opf: Seq<char>,
    doctitle: Seq<char>,
    first_linear_idref: Seq<char>,
    r: Result<NcxNavMap, BuildError>,
) -> bool {
    let m = config.manifest@;
    match config.navmap {
        None => {
            &&& index_of_id(m, first_linear_idref) >= 0 <==> r is Ok
            &&& r matches Err(e) ==> (e matches BuildError::Reference { idref } && idref@
                == first_linear_idref)
            &&& r matches Ok(nm) ==> nm.roots@ == seq![0usize] && nm.nodes@.len() == 1
                && nm.nodes@[0].labels@.len() == 1 && nm.nodes@[0].labels@[0].lang is None
                && nm.nodes@[0].labels@[0].text@ == doctitle && nm.nodes@[0].content@ == ncx_href(
                config,
                opf_parent,
                ncx_path_from_opf,
                first_linear_idref,
                None,
            ) && nm.nodes@[0].children@.len() == 0
        },
        Some(map) => {
            let ids = navpoint_ids(map.nodes@);
            &&& all_resolve(m, ids) <==> r is Ok
            &&& r matches Err(e) ==> names_first_unresolved(m, ids, e)
            &&& r matches Ok(nm) ==> nm.roots@ == map.roots@ && nm.nodes@.len() == map.nodes@.len()
                && forall|i: int|
                0 <= i < map.nodes@.len() ==> navpoint_matches(
                    #[trigger] nm.nodes@[i],
                    map.nodes@[i],
                    config,
                    opf_parent,
                    ncx_path_from_opf,
                )
        },
    }
}

/// The NCX navigation map.
pub fn get_navmap(
    config: &Epub2Config,
    opf_parent_path: &str,
    ncx_path_from_opf: &str,
    doctitle: &str,
    first_linear_idref: &str,
) -> (r: Result<NcxNavMap, BuildError>)
    requires
        ncx_paths_valid(*config, opf_parent_path@, ncx_path_from_opf@),
    ensures
        navmap_outcome(
            *config,
            opf_parent_path@,
            ncx_path_from_opf@,
            doctitle@,
            first_linear_idref@,
            r,
        ),
{
    match &config.navmap {
        None => {
            let content = get_ncx_path_to_file_from_idref(
                config,
                first_linear_idref,
                &None,
                opf_parent_path,
                ncx_path_from_opf,
            )?;
            let mut labels: Vec<OutLabel> = Vec::new();
            labels.push(OutLabel { lang: None, text: doctitle.to_owned() });
            let mut nodes: Vec<NcxNavPoint> = Vec::new();
            nodes.push(
                NcxNavPoint {
                    labels,
                    content,
                    children: Vec::new(),
                },
            );
            let mut roots: Vec<usize> = Vec::new();
            roots.push(0);
            assert(roots@ =~= seq![0usize]);
            Ok(NcxNavMap { nodes, roots })
        },
        Some(navmap) => {
            let ghost ids = navpoint_ids(navmap.nodes@);
            let mut nodes: Vec<NcxNavPoint> = Vec::new();
            let mut i: usize = 0;
            while i < navmap.nodes.len()
                invariant
                    i <= navmap.nodes@.len(),
                    config.navmap == Some(*navmap),
                    ncx_paths_valid(*config, opf_parent_path@, ncx_path_from_opf@),
                    ids == navpoint_ids(navmap.nodes@),
                    nodes@.len() == i,
                    forall|j: int| 0 <= j < i ==> index_of_id(config.manifest@, #[trigger] ids[j]) >= 0,
                    forall|j: int|
                        0 <= j < i ==> navpoint_matches(
                            #[trigger] nodes@[j],
                            navmap.nodes@[j],
                            *config,
                            opf_parent_path@,
                            ncx_path_from_opf@,
                        ),
                decreases navmap.nodes@.len() - i,
            {
                assert(ids[i as int] == navmap.nodes@[i as int].idref@);
                match convert_navpoint(config, opf_parent_path, ncx_path_from_opf, &navmap.nodes[i]) {
                    Ok(p) => {
                        nodes.push(p);
                    },
                    Err(e) => {
                        assert(names_first_unresolved(config.manifest@, ids, e));
                        return Err(e);
                    },
                }
                i = i + 1;
            }
            Ok(NcxNavMap { nodes, roots: navmap.roots.clone() })
        },
    }
}

/// The NCX page target written for a page target of the recipe.
pub open spec fn pagetarget_matches(
    out: NcxPageTarget,
    t: PageTarget,
    config: Epub2Config,
    opf_parent: Seq<char>,
    ncx_path_from_opf: Seq<char>,
) -> bool {
    &&& out.id == t.id
    &&& out.target_type == t.target_type
    &&& out.value == t.value
    &&& out.labels@ == labels_of(t.label)
    &&& out.content@ == ncx_href(config, opf_parent, ncx_path_from_opf, t.idref@, t.fragment)
}

pub open spec fn pagetarget_ids(l: Seq<PageTarget>) -> Seq<Seq<char>> {
    l.map_values(|t: PageTarget| t.idref@)
}

/// What building the page list gives: none without one in the recipe, else one
/// page target for each of the recipe's.
pub open spec fn pagelist_outcome(
    config: Epub2Config,
    opf_parent: Seq<char>,
    ncx_path_from_opf: Seq<char>,
    r: Result<Option<Vec<NcxPageTarget>>, BuildError>,
) -> bool {
    let m = config.manifest@;
    match config.pagelist {
        None => r matches Ok(None),
        Some(l) => {
            let ids = pagetarget_ids(l@);
            &&& all_resolve(m, ids) <==> r is Ok
            &&& r matches Err(e) ==> names_first_unresolved(m, ids, e)
            &&& r matches Ok(o) ==> (o matches Some(out) && out@.len() == l@.len() && forall|i: int|
                0 <= i < l@.len() ==> pagetarget_matches(
                    #[trigger] out@[i],
                    l@[i],
                    config,
                    opf_parent,
                    ncx_path_from_opf,
                ))
        },
    }
}

/// The NCX page list.
pub fn get_pagelist(config: &Epub2Config, opf_parent_path: &str, ncx_path_from_opf: &str) -> (r:
    Result<Option<Vec<NcxPageTarget>>, BuildError>)
    requires
        ncx_paths_valid(*config, opf_parent_path@, ncx_path_from_opf@),
    ensures
        pagelist_outcome(*config, opf_parent_path@, ncx_path_from_opf@, r),
{
    match &config.pagelist {
        None => Ok(None),
        Some(pagelist) => {
            let ghost ids = pagetarget_ids(pagelist@);
            let mut out: Vec<NcxPageTarget> = Vec::new();
            let mut i: usize = 0;
            while i < pagelist.len()
                invariant
                    i <= pagelist@.len(),
                    config.pagelist == Some(*pagelist),
                    ncx_paths_valid(*config, opf_parent_path@, ncx_path_from_opf@),
                    ids == pagetarget_ids(pagelist@),
                    out@.len() == i,
                    forall|j: int| 0 <= j < i ==> index_of_id(config.manifest@, #[trigger] ids[j]) >= 0,
                    forall|j: int|
                        0 <= j < i ==> pagetarget_matches(
                            #[trigger] out@[j],
                            pagelist@[j],
                            *config,
                            opf_parent_path@,
                            ncx_path_from_opf@,
                        ),
                decreases pagelist@.len() - i,
            {
                let t = &pagelist[i];
                assert(ids[i as int] == t.idref@);
                let content = match get_ncx_path_to_file_from_idref(
                    config,
                    t.idref.as_str(),
                    &t.fragment,
                    opf_parent_path,
                    ncx_path_from_opf,
                ) {
                    Ok(c) => c,
                    Err(e) => {
                        assert(names_first_unresolved(config.manifest@, ids, e));
                        return Err(e);
                    },
                };
                out.push(
                    NcxPageTarget {
                        id: t.id.clone(),
                        target_type: t.target_type.clone(),
                        value: clone_opt(&t.value),
                        labels: convert_labels(&t.label),
                        content,
                    },
                );
                i = i + 1;
            }
            Ok(Some(out))
        },
    }
}

/// The NCX navigation target written for a navigation target of the recipe.
pub open spec fn navtarget_matches(
    out: NcxNavTarget,
    t: NavTarget,
    config: Epub2Config,
    opf_parent: Seq<char>,
    ncx_path_from_opf: Seq<char>,
) -> bool {
    &&& out.labels@ == labels_of(t.label)
    &&& out.content@ == ncx_href(config, opf_parent, ncx_path_from_opf, t.idref@, t.fragment)
}

pub open spec fn navtarget_ids(l: Seq<NavTarget>) -> Seq<Seq<char>> {
    l.map_values(|t: NavTarget| t.idref@)
}

/// The targets written for a navigation list of the recipe.
pub open spec fn navtargets_match(
    out: Seq<NcxNavTarget>,
    l: Seq<NavTarget>,
    config: Epub2Config,
    opf_parent: Seq<char>,
    ncx_path_from_opf: Seq<char>,
) -> bool {
    out.len() == l.len() && forall|i: int|
        0 <= i < l.len() ==> navtarget_matches(
            #[trigger] out[i],
            l[i],
            config,
            opf_parent,
            ncx_path_from_opf,
        )
}

/// The NCX targets for the targets of a navigation list, in order; fails at the
/// first idref that names no manifest item.
pub fn convert_navlist(
    config: &Epub2Config,
    opf_parent_path: &str,
    ncx_path_from_opf: &str,
    other_format_list: &Vec<NavTarget>,
) -> (r: Result<Vec<NcxNavTarget>, BuildError>)
    requires
        ncx_paths_valid(*config, opf_parent_path@, ncx_path_from_opf@),
    ensures
        all_resolve(config.manifest@, navtarget_ids(other_format_list@)) <==> r is Ok,
        r matches Err(e) ==> names_first_unresolved(
            config.manifest@,
            navtarget_ids(other_format_list@),
            e,
        ),
        r matches Ok(out) ==> navtargets_match(
            out@,
            other_format_list@,
            *config,
            opf_parent_path@,
            ncx_path_from_opf@,
        ),
{
    let ghost ids = navtarget_ids(other_format_list@);
    let mut out: Vec<NcxNavTarget> = Vec::new();
    let mut i: usize = 0;
    while i < other_format_list.len()
        invariant
            i <= other_format_list@.len(),
            ncx_paths_valid(*config, opf_parent_path@, ncx_path_from_opf@),
            ids == navtarget_ids(other_format_list@),
            out@.len() == i,
            forall|j: int| 0 <= j < i ==> index_of_id(config.manifest@, #[trigger] ids[j]) >= 0,
            forall|j: int|
                0 <= j < i ==> navtarget_matches(
                    #[trigger] out@[j],
                    other_format_list@[j],
                    *config,
                    opf_parent_path@,
                    ncx_path_from_opf@,
                ),
        decreases other_format_list@.len() - i,
    {
        let t = &other_format_list[i];
        assert(ids[i as int] == t.idref@);
        let content = match get_ncx_path_to_file_from_idref(
            config,
            t.idref.as_str(),
            &t.fragment,
            opf_parent_path,
            ncx_path_from_opf,
        ) {
            Ok(c) => c,
            Err(e) => {
                assert(names_first_unresolved(config.manifest@, ids, e));
                return Err(e);
            },
        };
        out.push(NcxNavTarget { labels: convert_labels(&t.label), content });
        i = i + 1;
    }
    Ok(out)
}

/// Every idref of every navigation list names a manifest item.
pub open spec fn navlists_resolve(m: Seq<ManifestItem>, lists: Seq<NavList>) -> bool {
    forall|k: int| 0 <= k < lists.len() ==> all_resolve(m, navtarget_ids((#[trigger] lists[k]).list@))
}

/// What building the navigation lists gives: none without them in the recipe,
/// else one list for each of the recipe's, with its labels and targets.
pub open spec fn navlists_outcome(
    config: Epub2Config,
    opf_parent: Seq<char>,
    ncx_path_from_opf: Seq<char>,
    r: Result<Vec<NcxNavList>, BuildError>,
) -> bool {
    let m = config.manifest@;
    match config.navlists {
        None => r matches Ok(v) && v@.len() == 0,
        Some(lists) => {
            &&& navlists_resolve(m, lists@) <==> r is Ok
            &&& r matches Err(e) ==> exists|k: int|
                0 <= k < lists@.len() && navlists_resolve(m, lists@.take(k))
                    && names_first_unresolved(m, navtarget_ids((#[trigger] lists@[k]).list@), e)
            &&& r matches Ok(v) ==> v@.len() == lists@.len() && forall|k: int|
                0 <= k < lists@.len() ==> (#[trigger] v@[k]).labels@ == labels_of(lists@[k].label)
                    && navtargets_match(
                    v@[k].targets@,
                    lists@[k].list@,
                    config,
                    opf_parent,
                    ncx_path_from_opf,
                )
        },
    }
}

/// The NCX navigation lists.
pub fn get_navlists(config: &Epub2Config, opf_parent_path: &str, ncx_path_from_opf: &str) -> (r:
    Result<Vec<NcxNavList>, BuildError>)
    requires
        ncx_paths_valid(*config, opf_parent_path@, ncx_path_from_opf@),
    ensures
        navlists_outcome(*config, opf_parent_path@, ncx_path_from_opf@, r),
{
    match &config.navlists {
        None => Ok(Vec::new()),
        Some(navlists) => {
            let mut out: Vec<NcxNavList> = Vec::new();
            let mut k: usize = 0;
            while k < navlists.len()
                invariant
                    k <= navlists@.len(),
                    config.navlists == Some(*navlists),
                    ncx_paths_valid(*config, opf_parent_path@, ncx_path_from_opf@),
                    out@.len() == k,
                    navlists_resolve(config.manifest@, navlists@.take(k as int)),
                    forall|j: int|
                        0 <= j < k ==> (#[trigger] out@[j]).labels@ == labels_of(navlists@[j].label)
                            && navtargets_match(
                            out@[j].targets@,
                            navlists@[j].list@,
                            *config,
                            opf_parent_path@,
                            ncx_path_from_opf@,
                        ),
                decreases navlists@.len() - k,
            {
                let list = &navlists[k];
                let targets = match convert_navlist(
                    config,
                    opf_parent_path,
                    ncx_path_from_opf,
                    &list.list,
                ) {
                    Ok(t) => t,
                    Err(e) => {
                        assert(navlists@[k as int] == *list);
                        assert(!all_resolve(config.manifest@, navtarget_ids(navlists@[k as int].list@)));
                        return Err(e);
                    },
                };
                out.push(NcxNavList { labels: convert_labels(&list.label), targets });
                assert(navlists@.take(k + 1) =~= navlists@.take(k as int).push(*list));
                assert(navlists_resolve(config.manifest@, navlists@.take(k + 1))) by {
                    assert forall|j: int| 0 <= j < k + 1 implies all_resolve(
                        config.manifest@,
                        navtarget_ids((#[trigger] navlists@.take(k + 1)[j]).list@),
                    ) by {
                        if j < k {
                            assert(navlists@.take(k + 1)[j] == navlists@.take(k as int)[j]);
                        }
                    }
                }
                k = k + 1;
            }
            assert(navlists@.take(navlists@.len() as int) =~= navlists@);
            Ok(out)
        },
    }
}

/// Every idref of the navigation map, the page list and the navigation lists
/// names a manifest item.
pub open spec fn ncx_idrefs_resolve(config: Epub2Config) -> bool {
    let m = config.manifest@;
    &&& config.navmap matches Some(map) ==> all_resolve(m, navpoint_ids(map.nodes@))
    &&& config.pagelist matches Some(l) ==> all_resolve(m, pagetarget_ids(l@))
    &&& config.navlists matches Some(lists) ==> navlists_resolve(m, lists@)
}

/// The NCX document: its `dtb:uid` is the OPF's unique identifier, its title the
/// book's, and its navigation map, page list and navigation lists are built from
/// the recipe with hrefs relative to the NCX.
pub fn build_ncx_document(
    config: &Epub2Config,
    opf_parent_path: &str,
    ncx_path_from_opf: &str,
    uid: &str,
    doctitle: &str,
    first_linear_idref: &str,
) -> (r: Result<NcxDocument, BuildError>)
    requires
        ncx_paths_valid(*config, opf_parent_path@, ncx_path_from_opf@),
    ensures
        r matches Ok(d) ==> ({
            &&& d.uid@ == uid@
            &&& d.doc_title@ == doctitle@
            &&& navmap_outcome(
                *config,
                opf_parent_path@,
                ncx_path_from_opf@,
                doctitle@,
                first_linear_idref@,
                Ok(d.navmap),
            )
            &&& pagelist_outcome(*config, opf_parent_path@, ncx_path_from_opf@, Ok(d.pagelist))
            &&& navlists_outcome(*config, opf_parent_path@, ncx_path_from_opf@, Ok(d.navlists))
        }),
        r is Err <==> !(ncx_idrefs_resolve(*config) && (config.navmap is None ==> index_of_id(
            config.manifest@,
            first_linear_idref@,
        ) >= 0)),
        r matches Err(e) ==> (e matches BuildError::Reference { idref } && index_of_id(
            config.manifest@,
            idref@,
        ) < 0),
{
    let navmap = get_navmap(config, opf_parent_path, ncx_path_from_opf, doctitle, first_linear_idref)?;
    let pagelist = get_pagelist(config, opf_parent_path, ncx_path_from_opf)?;
    let navlists = get_navlists(config, opf_parent_path, ncx_path_from_opf)?;
    Ok(
        NcxDocument {
            uid: uid.to_owned(),
            doc_title: doctitle.to_owned(),
            navmap,
            pagelist,
            navlists,
        },
    )
}

} // verus!
