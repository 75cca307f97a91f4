use vstd::prelude::*;

use crate::config::{clone_opt, BuildError, Epub2Config, Metadata};
use crate::text::str_eq;

verus! {

/// The fifteen Dublin Core elements.
#[derive(Clone, Copy, Debug, PartialEq, Eq, Structural)]
pub enum DcElement {
    Title,
    Identifier,
    Language,
    Creator,
    Subject,
    Description,
    Publisher,
    Contributor,
    Date,
    Type,
    Format,
    Source,
    Relation,
    Coverage,
    Rights,
}

/// An entry of the OPF metadata block.
#[derive(Debug, PartialEq)]
pub enum MetadataEntry {
    Dc {
        element: DcElement,
        body: String,
        id: Option<String>,
        scheme: Option<String>,
        file_as: Option<String>,
        role: Option<String>,
        event: Option<String>,
        lang: Option<String>,
    },
    Meta { name: String, content: String },
}

/// A metadata entry with its strings as character sequences.
pub ghost enum MetadataEntryView {
    Dc {
        element: DcElement,
        body: Seq<char>,
        id: Option<Seq<char>>,
        scheme: Option<Seq<char>>,
        file_as: Option<Seq<char>>,
        role: Option<Seq<char>>,
        event: Option<Seq<char>>,
        lang: Option<Seq<char>>,
    },
    Meta { name: Seq<char>, content: Seq<char> },
}

pub open spec fn opt_view(o: Option<String>) -> Option<Seq<char>> {
    match o {
        Some(s) => Some(s@),
        None => None,
    }
}

impl View for MetadataEntry {
    type V = MetadataEntryView;

    open spec fn view(&self) -> MetadataEntryView {
        match self {
            MetadataEntry::Dc { element, body, id, scheme, file_as, role, event, lang } =>
                MetadataEntryView::Dc {
                element: *element,
                body: body@,
                id: opt_view(*id),
                scheme: opt_view(*scheme),
                file_as: opt_view(*file_as),
                role: opt_view(*role),
                event: opt_view(*event),
                lang: opt_view(*lang),
            },
            MetadataEntry::Meta { name, content } => MetadataEntryView::Meta {
                name: name@,
                content: content@,
            },
        }
    }
}

pub open spec fn entry_views(v: Seq<MetadataEntry>) -> Seq<MetadataEntryView> {
    v.map_values(|e: MetadataEntry| e@)
}

/// The element that a Dublin Core name stands for.
pub open spec fn dc_element_of(name: Seq<char>) -> Option<DcElement> {
    if name == "title"@ {
        Some(DcElement::Title)
    } else if name == "identifier"@ {
        Some(DcElement::Identifier)
    } else if name == "language"@ {
        Some(DcElement::Language)
    } else if name == "creator"@ {
        Some(DcElement::Creator)
    } else if name == "subject"@ {
        Some(DcElement::Subject)
    } else if name == "description"@ {
        Some(DcElement::Description)
    } else if name == "publisher"@ {
        Some(DcElement::Publisher)
    } else if name == "contributor"@ {
        Some(DcElement::Contributor)
    } else if name == "date"@ {
        Some(DcElement::Date)
    } else if name == "type"@ {
        Some(DcElement::Type)
    } else if name == "format"@ {
        Some(DcElement::Format)
    } else if name == "source"@ {
        Some(DcElement::Source)
    } else if name == "relation"@ {
        Some(DcElement::Relation)
    } else if name == "coverage"@ {
        Some(DcElement::Coverage)
    } else if name == "rights"@ {
        Some(DcElement::Rights)
    } else {
        None
    }
}

/// The element for a Dublin Core name, if it names one.
pub fn dc_element_from_name(name: &str) -> (r: Option<DcElement>)
    ensures
        r == dc_element_of(name@),
{
    if str_eq(name, "title") {
        Some(DcElement::Title)
    } else if str_eq(name, "identifier") {
        Some(DcElement::Identifier)
    } else if str_eq(name, "language") {
        Some(DcElement::Language)
    } else if str_eq(name, "creator") {
        Some(DcElement::Creator)
    } else if str_eq(name, "subject") {
        Some(DcElement::Subject)
    } else if str_eq(name, "description") {
        Some(DcElement::Description)
    } else if str_eq(name, "publisher") {
        Some(DcElement::Publisher)
    } else if str_eq(name, "contributor") {
        Some(DcElement::Contributor)
    } else if str_eq(name, "date") {
        Some(DcElement::Date)
    } else if str_eq(name, "type") {
        Some(DcElement::Type)
    } else if str_eq(name, "format") {
        Some(DcElement::Format)
    } else if str_eq(name, "source") {
        Some(DcElement::Source)
    } else if str_eq(name, "relation") {
        Some(DcElement::Relation)
    } else if str_eq(name, "coverage") {
        Some(DcElement::Coverage)
    } else if str_eq(name, "rights") {
        Some(DcElement::Rights)
    } else {
        None
    }
}

/// Elements written with an `xml:lang` attribute.
pub open spec fn keeps_lang(e: DcElement) -> bool {
    !(e == DcElement::Identifier || e == DcElement::Language || e == DcElement::Date || e
        == DcElement::Type || e == DcElement::Format)
}

/// Elements written with `opf:file-as` and `opf:role`.
pub open spec fn keeps_file_as_and_role(e: DcElement) -> bool {
    e == DcElement::Creator || e == DcElement::Contributor
}

pub open spec fn kept(keep: bool, o: Option<String>) -> Option<Seq<char>> {
    if keep {
        opt_view(o)
    } else {
        None
    }
}

/// The OPF entry for an entry of the recipe, keeping the attributes that its
/// element takes; `None` for a Dublin Core name outside the fifteen.
pub open spec fn entry_of(m: Metadata) -> Option<MetadataEntryView> {
    match m {
        Metadata::DcMetadata { name, content, id, scheme, file_as, role, event, lang } => {
            match dc_element_of(name@) {
                None => None,
                Some(e) => Some(
                    MetadataEntryView::Dc {
                        element: e,
                        body: content@,
                        id: kept(e == DcElement::Identifier, id),
                        scheme: kept(e == DcElement::Identifier, scheme),
                        file_as: kept(keeps_file_as_and_role(e), file_as),
                        role: kept(keeps_file_as_and_role(e), role),
                        event: kept(e == DcElement::Date, event),
                        lang: kept(keeps_lang(e), lang),
                    },
                ),
            }
        },
        Metadata::CustomMetadata { name, content } => Some(
            MetadataEntryView::Meta { name: name@, content: content@ },
        ),
    }
}

/// Index of the first entry of the recipe with an unknown Dublin Core name, or
/// the number of entries.
pub open spec fn first_unrecognized(md: Seq<Metadata>) -> int
    decreases md.len(),
{
    if md.len() == 0 {
        0
    } else if entry_of(md[0]) is None {
        0
    } else {
        1 + first_unrecognized(md.drop_first())
    }
}

/// The OPF entries for all entries of the recipe, where each has one.
pub open spec fn entries_of(md: Seq<Metadata>) -> Seq<MetadataEntryView> {
    md.map_values(|m: Metadata| entry_of(m)->0)
}

pub open spec fn is_element(v: MetadataEntryView, e: DcElement) -> bool {
    v matches MetadataEntryView::Dc { element, .. } && element == e
}

pub open spec fn has_element(v: Seq<MetadataEntryView>, e: DcElement) -> bool {
    exists|i: int| 0 <= i < v.len() && is_element(v[i], e)
}

pub open spec fn bare_dc(e: DcElement, body: Seq<char>) -> MetadataEntryView {
    MetadataEntryView::Dc {
        element: e,
        body: body,
        id: None,
        scheme: None,
        file_as: None,
        role: None,
        event: None,
        lang: None,
    }
}

/// The entries with a title, an identifier and a language appended where they
/// lack one: the title `Untitled`; the identifier `uuid`, with id `safe_uid` and
/// scheme `UUID`; the host's language, or `en`.
pub open spec fn with_defaults(
    v: Seq<MetadataEntryView>,
    safe_uid: Seq<char>,
    uuid: Seq<char>,
    locale: Option<Seq<char>>,
) -> Seq<MetadataEntryView> {
    let v1 = if has_element(v, DcElement::Title) {
        v
    } else {
        v.push(bare_dc(DcElement::Title, "Untitled"@))
    };
    let v2 = if has_element(v1, DcElement::Identifier) {
        v1
    } else {
        v1.push(
            MetadataEntryView::Dc {
                element: DcElement::Identifier,
                body: uuid,
                id: Some(safe_uid),
                scheme: Some("UUID"@),
                file_as: None,
                role: None,
                event: None,
                lang: None,
            },
        )
    };
    if has_element(v2, DcElement::Language) {
        v2
    } else {
        v2.push(
            bare_dc(
                DcElement::Language,
                match locale {
                    Some(l) => l,
                    None => "en"@,
                },
            ),
        )
    }
}

/// An entry of element `e`, with a non-empty id where `need_id` holds.
pub open spec fn entry_matches(x: MetadataEntryView, e: DcElement, need_id: bool) -> bool {
    is_element(x, e) && (need_id ==> x->Dc_id is Some && x->Dc_id->0.len() > 0)
}

/// Index of the first entry of element `e` (with a non-empty id where `need_id`), or -1.
pub open spec fn first_where(v: Seq<MetadataEntryView>, e: DcElement, need_id: bool) -> int
    decreases v.len(),
{
    if v.len() == 0 {
        -1
    } else if first_where(v.drop_last(), e, need_id) >= 0 {
        first_where(v.drop_last(), e, need_id)
    } else if entry_matches(v.last(), e, need_id) {
        v.len() - 1
    } else {
        -1
    }
}

/// The entries, the book's unique identifier and its title: the id of the first
/// identifier that has a non-empty one, else `safe_uid`, which the first
/// identifier then takes as its id; the title is the body of the first title.
pub open spec fn finish_metadata(v: Seq<MetadataEntryView>, safe_uid: Seq<char>) -> (
    Seq<MetadataEntryView>,
    Seq<char>,
    Seq<char>,
) {
    let with_id = first_where(v, DcElement::Identifier, true);
    let ident = first_where(v, DcElement::Identifier, false);
    let title = first_where(v, DcElement::Title, false);
    let title_body = v[title]->Dc_body;
    if with_id >= 0 {
        (v, v[with_id]->Dc_id->0, title_body)
    } else {
        let e = v[ident];
        (
            v.update(
                ident,
                MetadataEntryView::Dc {
                    element: DcElement::Identifier,
                    body: e->Dc_body,
                    id: Some(safe_uid),
                    scheme: e->Dc_scheme,
                    file_as: e->Dc_file_as,
                    role: e->Dc_role,
                    event: e->Dc_event,
                    lang: e->Dc_lang,
                },
            ),
            safe_uid,
            title_body,
        )
    }
}

/// The metadata block, unique identifier and title for the recipe's metadata
/// entries, given the identifier to use where none has an id, a fresh UUID for
/// a missing identifier and the host's language.
pub open spec fn metadata_result(
    md: Seq<Metadata>,
    safe_uid: Seq<char>,
    uuid: Seq<char>,
    locale: Option<Seq<char>>,
) -> (Seq<MetadataEntryView>, Seq<char>, Seq<char>) {
    finish_metadata(with_defaults(entries_of(md), safe_uid, uuid, locale), safe_uid)
}

pub open spec fn recipe_metadata(md: Option<Vec<Metadata>>) -> Seq<Metadata> {
    match md {
        Some(v) => v@,
        None => Seq::empty(),
    }
}

/// The name that a metadata entry of the recipe carries.
pub open spec fn metadata_name(m: Metadata) -> Seq<char> {
    match m {
        Metadata::DcMetadata { name, .. } => name@,
        Metadata::CustomMetadata { name, .. } => name@,
    }
}

fn keep(b: bool, o: &Option<String>) -> (r: Option<String>)
    ensures
        opt_view(r) == kept(b, *o),
{
    if b {
        clone_opt(o)
    } else {
        None
    }
}

fn entry_for(m: &Metadata) -> (r: Option<MetadataEntry>)
    ensures
        match entry_of(*m) {
            None => r is None,
            Some(v) => r matches Some(e) && e@ == v,
        },
{
    match m {
        Metadata::DcMetadata { name, content, id, scheme, file_as, role, event, lang } => {
            match dc_element_from_name(name.as_str()) {
                None => None,
                Some(e) => {
                    let is_ident = e == DcElement::Identifier;
                    let fr = e == DcElement::Creator || e == DcElement::Contributor;
                    let with_lang = !(e == DcElement::Identifier || e == DcElement::Language || e
                        == DcElement::Date || e == DcElement::Type || e == DcElement::Format);
                    Some(
                        MetadataEntry::Dc {
                            element: e,
                            body: content.clone(),
                            id: keep(is_ident, id),
                            scheme: keep(is_ident, scheme),
                            file_as: keep(fr, file_as),
                            role: keep(fr, role),
                            event: keep(e == DcElement::Date, event),
                            lang: keep(with_lang, lang),
                        },
                    )
                },
            }
        },
        Metadata::CustomMetadata { name, content } => Some(
            MetadataEntry::Meta { name: name.clone(), content: content.clone() },
        ),
    }
}

fn convert_entries(md: &Vec<Metadata>) -> (r: Result<Vec<MetadataEntry>, BuildError>)
    ensures
        first_unrecognized(md@) < md@.len() <==> r is Err,
        r matches Err(e) ==> (e matches BuildError::Schema { name } && name@ == metadata_name(
            md@[first_unrecognized(md@)],
        )),
        r matches Ok(v) ==> entry_views(v@) == entries_of(md@),
{
    let mut out: Vec<MetadataEntry> = Vec::new();
    let mut i: usize = 0;
    assert(md@.skip(0) =~= md@);
    while i < md.len()
        invariant
            i <= md@.len(),
            first_unrecognized(md@) == i + first_unrecognized(md@.skip(i as int)),
            entry_views(out@) == entries_of(md@.take(i as int)),
            forall|j: int| 0 <= j < i ==> entry_of(#[trigger] md@[j]) is Some,
        decreases md@.len() - i,
    {
        assert(md@.skip(i as int)[0] == md@[i as int]);
        assert(md@.skip(i as int).drop_first() =~= md@.skip(i + 1));
        match entry_for(&md[i]) {
            None => {
                let name = match &md[i] {
                    Metadata::DcMetadata { name, .. } => name.clone(),
                    Metadata::CustomMetadata { name, .. } => name.clone(),
                };
                return Err(BuildError::Schema { name });
            },
            Some(e) => {
                let ghost before = entry_views(out@);
                out.push(e);
                assert(entry_views(out@) =~= before.push(e@));
                assert(entries_of(md@.take(i + 1)) =~= entries_of(md@.take(i as int)).push(
                    entry_of(md@[i as int])->0,
                ));
            },
        }
        i = i + 1;
    }
    assert(md@.take(md@.len() as int) =~= md@);
    proof {
        lemma_first_unrecognized_bound(md@);
    }
    Ok(out)
}

proof fn lemma_first_unrecognized_bound(md: Seq<Metadata>)
    ensures
        first_unrecognized(md) <= md.len(),
    decreases md.len(),
{
    if md.len() > 0 {
        lemma_first_unrecognized_bound(md.drop_first());
    }
}

proof fn lemma_first_where(v: Seq<MetadataEntryView>, e: DcElement, need_id: bool, i: int)
    requires
        0 <= i <= v.len(),
        forall|j: int| 0 <= j < i ==> !entry_matches(#[trigger] v[j], e, need_id),
    ensures
        i < v.len() && entry_matches(v[i], e, need_id) ==> first_where(v, e, need_id) == i,
        i == v.len() ==> first_where(v, e, need_id) == -1,
    decreases v.len(),
{
    if v.len() > 0 {
        if i < v.len() && entry_matches(v[i], e, need_id) {
            if i < v.len() - 1 {
                lemma_first_where(v.drop_last(), e, need_id, i);
                assert(v.drop_last()[i] == v[i]);
            } else {
                lemma_first_where(v.drop_last(), e, need_id, v.len() - 1);
            }
        } else if i == v.len() {
            lemma_first_where(v.drop_last(), e, need_id, v.len() - 1);
        }
    }
}

fn find_entry(v: &Vec<MetadataEntry>, e: DcElement, need_id: bool) -> (r: usize)
    ensures
        r <= v@.len(),
        forall|j: int| 0 <= j < r ==> !entry_matches(#[trigger] entry_views(v@)[j], e, need_id),
        r < v@.len() ==> entry_matches(entry_views(v@)[r as int], e, need_id),
        r < v@.len() ==> first_where(entry_views(v@), e, need_id) == r,
        r == v@.len() ==> first_where(entry_views(v@), e, need_id) == -1,
{
    let mut i: usize = 0;
    while i < v.len()
        invariant
            i <= v@.len(),
            forall|j: int| 0 <= j < i ==> !entry_matches(#[trigger] entry_views(v@)[j], e, need_id),
        decreases v@.len() - i,
    {
        assert(entry_views(v@)[i as int] == v@[i as int]@);
        let hit = match &v[i] {
            MetadataEntry::Dc { element, id, .. } => *element == e && (!need_id || match id {
                Some(x) => x.unicode_len() > 0,
                None => false,
            }),
            MetadataEntry::Meta { .. } => false,
        };
        if hit {
            proof {
                lemma_first_where(entry_views(v@), e, need_id, i as int);
            }
            return i;
        }
        i = i + 1;
    }
    proof {
        lemma_first_where(entry_views(v@), e, need_id, i as int);
    }
    i
}

fn has_element_exec(v: &Vec<MetadataEntry>, e: DcElement) -> (r: bool)
    ensures
        r == has_element(entry_views(v@), e),
{
    let mut i: usize = 0;
    while i < v.len()
        invariant
            i <= v@.len(),
            forall|j: int| 0 <= j < i ==> !is_element(#[trigger] entry_views(v@)[j], e),
        decreases v@.len() - i,
    {
        assert(entry_views(v@)[i as int] == v@[i as int]@);
        match &v[i] {
            MetadataEntry::Dc { element, .. } => {
                if *element == e {
                    return true;
                }
            },
            MetadataEntry::Meta { .. } => {},
        }
        i = i + 1;
    }
    false
}

fn bare_entry(e: DcElement, body: String) -> (r: MetadataEntry)
    ensures
        r@ == bare_dc(e, body@),
{
    MetadataEntry::Dc {
        element: e,
        body,
        id: None,
        scheme: None,
        file_as: None,
        role: None,
        event: None,
        lang: None,
    }
}

fn add_defaults(
    v: &mut Vec<MetadataEntry>,
    safe_uid: &str,
    generated_uuid: &str,
    host_locale: &Option<String>,
)
    ensures
        entry_views(final(v)@) == with_defaults(
            entry_views(old(v)@),
            safe_uid@,
            generated_uuid@,
            opt_view(*host_locale),
        ),
{
    let ghost v0 = entry_views(v@);
    if !has_element_exec(v, DcElement::Title) {
        v.push(bare_entry(DcElement::Title, String::from_str("Untitled")));
        assert(entry_views(v@) =~= v0.push(bare_dc(DcElement::Title, "Untitled"@)));
    }
    let ghost v1 = entry_views(v@);
    if !has_element_exec(v, DcElement::Identifier) {
        let entry = MetadataEntry::Dc {
            element: DcElement::Identifier,
            body: generated_uuid.to_owned(),
            id: Some(safe_uid.to_owned()),
            scheme: Some(String::from_str("UUID")),
            file_as: None,
            role: None,
            event: None,
            lang: None,
        };
        v.push(entry);
        assert(entry_views(v@) =~= v1.push(entry@));
    }
    let ghost v2 = entry_views(v@);
    if !has_element_exec(v, DcElement::Language) {
        let body = match host_locale {
            Some(l) => l.clone(),
            None => String::from_str("en"),
        };
        let entry = bare_entry(DcElement::Language, body);
        v.push(entry);
        assert(entry_views(v@) =~= v2.push(entry@));
    }
}

proof fn lemma_defaults_present(
    v: Seq<MetadataEntryView>,
    safe_uid: Seq<char>,
    uuid: Seq<char>,
    locale: Option<Seq<char>>,
)
    ensures
        has_element(with_defaults(v, safe_uid, uuid, locale), DcElement::Title),
        has_element(with_defaults(v, safe_uid, uuid, locale), DcElement::Identifier),
{
    let w = with_defaults(v, safe_uid, uuid, locale);
    let v1 = if has_element(v, DcElement::Title) {
        v
    } else {
        v.push(bare_dc(DcElement::Title, "Untitled"@))
    };
    if !has_element(v, DcElement::Title) {
        assert(is_element(v1[v.len() as int], DcElement::Title));
    }
    let ti = choose|i: int| 0 <= i < v1.len() && is_element(v1[i], DcElement::Title);
    assert(w[ti] == v1[ti]);
    if has_element(v1, DcElement::Identifier) {
        let ii = choose|i: int| 0 <= i < v1.len() && is_element(v1[i], DcElement::Identifier);
        assert(w[ii] == v1[ii]);
    } else {
        assert(is_element(w[v1.len() as int], DcElement::Identifier));
    }
}

/// The OPF metadata block, with the book's unique identifier and title: the
/// recipe's entries in order, each Dublin Core entry keeping the attributes that
/// its element takes, then a title, an identifier and a language where they are
/// missing (`Untitled`; `generated_uuid` with id `safe_uid` and scheme `UUID`;
/// the host's language or `en`). Fails at the first Dublin Core name outside the
/// fifteen elements.
pub fn get_uid_and_title_and_metadata(
    config: &Epub2Config,
    safe_uid: &str,
    generated_uuid: &str,
    host_locale: &Option<String>,
) -> (r: Result<(String, String, Vec<MetadataEntry>), BuildError>)
    ensures
        ({
            let md = recipe_metadata(config.metadata);
            &&& first_unrecognized(md) < md.len() <==> r is Err
            &&& r matches Err(e) ==> (e matches BuildError::Schema { name } && name@
                == metadata_name(md[first_unrecognized(md)]))
            &&& r matches Ok((uid, title, v)) ==> (entry_views(v@), uid@, title@) == metadata_result(
                md,
                safe_uid@,
                generated_uuid@,
                opt_view(*host_locale),
            )
        }),
        safe_uid@.len() > 0 ==> (r matches Ok((uid, _, _)) ==> uid@.len() > 0),
{
    let mut v: Vec<MetadataEntry> = match &config.metadata {
        Some(md) => convert_entries(md)?,
        None => {
            let e: Vec<MetadataEntry> = Vec::new();
            assert(entries_of(Seq::<Metadata>::empty()) =~= Seq::<MetadataEntryView>::empty());
            assert(entry_views(e@) =~= Seq::<MetadataEntryView>::empty());
            e
        },
    };
    assert(entry_views(v@) == entries_of(recipe_metadata(config.metadata)));
    proof {
        lemma_first_unrecognized_bound(recipe_metadata(config.metadata));
    }
    add_defaults(&mut v, safe_uid, generated_uuid, host_locale);
    let ghost w = entry_views(v@);
    proof {
        lemma_defaults_present(
            entries_of(recipe_metadata(config.metadata)),
            safe_uid@,
            generated_uuid@,
            opt_view(*host_locale),
        );
    }
    let t = find_entry(&v, DcElement::Title, false);
    let f = find_entry(&v, DcElement::Identifier, false);
    if t == v.len() || f == v.len() {
        // never taken: the defaults supply a title and an identifier
        proof {
            if t == v.len() {
                let k = choose|i: int| 0 <= i < w.len() && is_element(w[i], DcElement::Title);
                assert(!entry_matches(w[k], DcElement::Title, false));
            } else {
                let k = choose|i: int| 0 <= i < w.len() && is_element(w[i], DcElement::Identifier);
                assert(!entry_matches(w[k], DcElement::Identifier, false));
            }
            assert(false);
        }
        return Err(BuildError::NoSpineItem);
    }
    let title = match &v[t] {
        MetadataEntry::Dc { body, .. } => body.clone(),
        MetadataEntry::Meta { content, .. } => content.clone(),
    };
    let k = find_entry(&v, DcElement::Identifier, true);
    if k < v.len() {
        let uid = match &v[k] {
            MetadataEntry::Dc { id: Some(id), .. } => id.clone(),
            _ => safe_uid.to_owned(),
        };
        return Ok((uid, title, v));
    }
    // no identifier has a non-empty id: the first identifier takes the safe one
    let updated = match &v[f] {
        MetadataEntry::Dc { element, body, scheme, file_as, role, event, lang, .. } =>
            MetadataEntry::Dc {
            element: *element,
            body: body.clone(),
            id: Some(safe_uid.to_owned()),
            scheme: clone_opt(scheme),
            file_as: clone_opt(file_as),
            role: clone_opt(role),
            event: clone_opt(event),
            lang: clone_opt(lang),
        },
        MetadataEntry::Meta { name, content } => MetadataEntry::Meta {
            name: name.clone(),
            content: content.clone(),
        },
    };
    v.set(f, updated);
    assert(entry_views(v@) =~= w.update(f as int, updated@));
    Ok((safe_uid.to_owned(), title, v))
}

/// Relies on uuid::Uuid::new_v4: a random version-4 UUID, written out.
#[verifier::external_body]
pub(crate) fn new_uuid_string() -> (r: String) {
    uuid::Uuid::new_v4().to_string()
}

/// Relies on sys_locale::get_locale: the host's language tag, where it has one.
#[verifier::external_body]
pub(crate) fn host_locale() -> (r: Option<String>) {
    sys_locale::get_locale()
}

/// Where the recipe gives a Dublin Core identifier, the metadata block, the
/// unique identifier and the title do not depend on the random UUID: building
/// twice gives the same metadata.
pub proof fn lemma_metadata_reproducible_with_identifier(
    md: Seq<Metadata>,
    safe_uid: Seq<char>,
    uuid1: Seq<char>,
    uuid2: Seq<char>,
    locale: Option<Seq<char>>,
)
    requires
        exists|i: int|
            0 <= i < md.len() && (#[trigger] md[i] matches Metadata::DcMetadata { name, .. }
                && dc_element_of(name@) == Some(DcElement::Identifier)),
    ensures
        metadata_result(md, safe_uid, uuid1, locale) == metadata_result(
            md,
            safe_uid,
            uuid2,
            locale,
        ),
{
    let i = choose|i: int|
        0 <= i < md.len() && (#[trigger] md[i] matches Metadata::DcMetadata { name, .. }
            && dc_element_of(name@) == Some(DcElement::Identifier));
    let v = entries_of(md);
    assert(is_element(v[i], DcElement::Identifier));
    let v1 = if has_element(v, DcElement::Title) {
        v
    } else {
        v.push(bare_dc(DcElement::Title, "Untitled"@))
    };
    assert(v1[i] == v[i]);
    assert(has_element(v1, DcElement::Identifier));
    assert(with_defaults(v, safe_uid, uuid1, locale) == with_defaults(v, safe_uid, uuid2, locale));
}

} // verus!
