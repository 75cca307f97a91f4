use vstd::prelude::*;

use crate::text::{
    join_slash, lemma_char_in_piece, lemma_split_join, lemma_split_on_absent, lemma_split_slash_nonempty,
    split_at_char, split_on, split_slash, unify_separators, utf8_len, views,
};

verus! {

/// A character that no component of a path inside the archive may hold.
pub open spec fn forbidden_char(c: char) -> bool {
    c == '/' || c == '"' || c == '*' || c == ':' || c == '<' || c == '>' || c == '?' || c == '\\'
}

/// A component of a path inside the archive: not empty, no forbidden character,
/// not ending in `.`.
pub open spec fn valid_component(c: Seq<char>) -> bool {
    &&& c.len() > 0
    &&& forall|i: int| 0 <= i < c.len() ==> !forbidden_char(#[trigger] c[i])
    &&& c.last() != '.'
}

/// A path that may name an entry of the archive: every component valid, a file
/// name of at most 255 bytes, and at most 65535 bytes in all.
pub open spec fn valid_inside_path(s: Seq<char>) -> bool {
    let segs = split_slash(s);
    &&& forall|i: int| 0 <= i < segs.len() ==> valid_component(#[trigger] segs[i])
    &&& utf8_len(segs.last()) <= 255
    &&& utf8_len(s) <= 65535
}

/// A plain name: not empty, no separator, neither `.` nor `..`.
pub open spec fn normal_component(c: Seq<char>) -> bool {
    &&& c.len() > 0
    &&& forall|i: int| 0 <= i < c.len() ==> #[trigger] c[i] != '/'
    &&& c != seq!['.']
    &&& c != seq!['.', '.']
}

pub open spec fn all_normal(cs: Seq<Seq<char>>) -> bool {
    forall|i: int| 0 <= i < cs.len() ==> normal_component(#[trigger] cs[i])
}

/// `p` appended to the directory `dir`, as a path buffer appends: an absolute
/// `p` replaces `dir`, and a separator is put between them where `dir` lacks one.
pub open spec fn join_path(dir: Seq<char>, p: Seq<char>) -> Seq<char> {
    if dir.len() == 0 || (p.len() > 0 && p[0] == '/') {
        p
    } else if dir.last() == '/' {
        dir + p
    } else {
        dir + seq!['/'] + p
    }
}

/// Index of the last `/` of `s`, or -1.
pub open spec fn last_slash(s: Seq<char>) -> int
    decreases s.len(),
{
    if s.len() == 0 {
        -1
    } else if s.last() == '/' {
        s.len() - 1
    } else {
        last_slash(s.drop_last())
    }
}

/// The directory part of `s`: what stands before its last `/`, or nothing.
pub open spec fn parent_dir(s: Seq<char>) -> Seq<char> {
    if last_slash(s) < 0 {
        Seq::empty()
    } else {
        s.take(last_slash(s))
    }
}

/// The number of leading components that `a` and `b` share.
pub open spec fn common_prefix_len(a: Seq<Seq<char>>, b: Seq<Seq<char>>) -> nat
    decreases a.len(),
{
    if a.len() == 0 || b.len() == 0 || a[0] != b[0] {
        0
    } else {
        1 + common_prefix_len(a.drop_first(), b.drop_first())
    }
}

/// `m` components `..`.
pub open spec fn dotdots(m: nat) -> Seq<Seq<char>> {
    Seq::new(m, |i: int| seq!['.', '.'])
}

/// How many leading components of the target the href leaves implicit: those of
/// the target's directory where the NCX lies at or below it (same directory, or
/// nested under it), else those shared with the NCX, never the NCX's own name.
pub open spec fn href_base_len(ncx: Seq<Seq<char>>, target: Seq<Seq<char>>) -> int {
    let pt = target.len() - 1;
    if ncx.len() > pt && ncx.take(pt) == target.take(pt) {
        pt
    } else if common_prefix_len(ncx, target) < ncx.len() - 1 {
        common_prefix_len(ncx, target) as int
    } else {
        ncx.len() - 1
    }
}

/// The components of the href from the NCX's directory to the target: one `..`
/// for each directory of the NCX below the shared part, then the rest of the
/// target.
pub open spec fn relative_components(ncx: Seq<Seq<char>>, target: Seq<Seq<char>>) -> Seq<
    Seq<char>,
> {
    let k = href_base_len(ncx, target);
    dotdots((ncx.len() - 1 - k) as nat) + target.skip(k)
}

/// One step of lexical normalisation: `.` vanishes, `..` removes a preceding
/// name, anything else is appended.
pub open spec fn normalize_step(stack: Seq<Seq<char>>, c: Seq<char>) -> Seq<Seq<char>> {
    if c == seq!['.'] {
        stack
    } else if c == seq!['.', '.'] && stack.len() > 0 && stack.last() != seq!['.', '.'] {
        stack.drop_last()
    } else {
        stack.push(c)
    }
}

pub open spec fn normalize_onto(stack: Seq<Seq<char>>, cs: Seq<Seq<char>>) -> Seq<Seq<char>>
    decreases cs.len(),
{
    if cs.len() == 0 {
        stack
    } else {
        normalize_onto(normalize_step(stack, cs[0]), cs.drop_first())
    }
}

/// Lexical normalisation of the components of a relative path.
pub open spec fn normalize(cs: Seq<Seq<char>>) -> Seq<Seq<char>> {
    normalize_onto(Seq::empty(), cs)
}

proof fn lemma_normalize_names(s: Seq<Seq<char>>, x: Seq<Seq<char>>, rest: Seq<Seq<char>>)
    requires
        all_normal(x),
    ensures
        normalize_onto(s, x + rest) == normalize_onto(s + x, rest),
    decreases x.len(),
{
    if x.len() == 0 {
        assert(x + rest =~= rest);
        assert(s + x =~= s);
    } else {
        assert((x + rest)[0] == x[0]);
        assert(normal_component(x[0]));
        assert((x + rest).drop_first() =~= x.drop_first() + rest);
        lemma_normalize_names(s.push(x[0]), x.drop_first(), rest);
        assert(s.push(x[0]) + x.drop_first() =~= s + x);
    }
}

proof fn lemma_normalize_ups(s: Seq<Seq<char>>, m: nat, rest: Seq<Seq<char>>)
    requires
        all_normal(s),
        m <= s.len(),
    ensures
        normalize_onto(s, dotdots(m) + rest) == normalize_onto(s.take(s.len() - m), rest),
    decreases m,
{
    if m == 0 {
        assert(dotdots(0) + rest =~= rest);
        assert(s.take(s.len() as int) =~= s);
    } else {
        let l = dotdots(m) + rest;
        assert(l[0] == seq!['.', '.']);
        assert(normal_component(s.last()));
        assert(l.drop_first() =~= dotdots((m - 1) as nat) + rest);
        lemma_normalize_ups(s.drop_last(), (m - 1) as nat, rest);
        assert(s.drop_last().take(s.drop_last().len() - (m - 1)) =~= s.take(s.len() - m));
    }
}

proof fn lemma_common_prefix(a: Seq<Seq<char>>, b: Seq<Seq<char>>, k: int)
    requires
        0 <= k <= common_prefix_len(a, b),
    ensures
        common_prefix_len(a, b) <= a.len(),
        common_prefix_len(a, b) <= b.len(),
        a.take(k) == b.take(k),
    decreases a.len(),
{
    if a.len() == 0 || b.len() == 0 || a[0] != b[0] {
        assert(a.take(0) =~= b.take(0));
    } else {
        let k2 = if k > 0 {
            k - 1
        } else {
            0
        };
        lemma_common_prefix(a.drop_first(), b.drop_first(), k2);
        if k > 0 {
            assert(a.take(k) =~= seq![a[0]] + a.drop_first().take(k - 1));
            assert(b.take(k) =~= seq![b[0]] + b.drop_first().take(k - 1));
        } else {
            assert(a.take(k) =~= b.take(k));
        }
    }
}

/// Round trip of the resolver: joining the NCX's directory with the components
/// of the href to a target and normalising gives back the target's components,
/// whichever way the two paths lie (same directory, NCX nested under the
/// target's directory, a shared ancestor, or none).
pub proof fn lemma_relative_href_round_trip(ncx: Seq<Seq<char>>, target: Seq<Seq<char>>)
    requires
        ncx.len() > 0,
        target.len() > 0,
        all_normal(ncx),
        all_normal(target),
    ensures
        normalize(ncx.take(ncx.len() - 1) + relative_components(ncx, target)) == target,
{
    let k = href_base_len(ncx, target);
    let dir = ncx.take(ncx.len() - 1);
    let m = (ncx.len() - 1 - k) as nat;
    let rest = target.skip(k);
    lemma_common_prefix(ncx, target, 0);
    if !(ncx.len() > target.len() - 1 && ncx.take(target.len() - 1) == target.take(
        target.len() - 1,
    )) {
        lemma_common_prefix(ncx, target, k);
    }
    assert(ncx.take(k) == target.take(k));
    assert(all_normal(dir));
    assert(all_normal(rest));
    lemma_normalize_names(Seq::empty(), dir, dotdots(m) + rest);
    assert(Seq::<Seq<char>>::empty() + dir =~= dir);
    assert(dir + (dotdots(m) + rest) =~= dir + relative_components(ncx, target));
    lemma_normalize_ups(dir, m, rest);
    lemma_normalize_names(dir.take(dir.len() - m), rest, Seq::empty());
    assert(rest + Seq::<Seq<char>>::empty() =~= rest);
    assert(dir.take(dir.len() - m) =~= ncx.take(k));
    assert(target.take(k) + rest =~= target);
}

/// The round trip through the href as text: splitting it at `/`, appending the
/// pieces to the NCX's directory and normalising gives back the target.
pub proof fn lemma_relative_href_text_round_trip(ncx: Seq<Seq<char>>, target: Seq<Seq<char>>)
    requires
        ncx.len() > 0,
        target.len() > 0,
        all_normal(ncx),
        all_normal(target),
    ensures
        normalize(
            ncx.take(ncx.len() - 1) + split_slash(join_slash(relative_components(ncx, target))),
        ) == target,
{
    let k = href_base_len(ncx, target);
    let rel = relative_components(ncx, target);
    lemma_common_prefix(ncx, target, 0);
    if !(ncx.len() > target.len() - 1 && ncx.take(target.len() - 1) == target.take(
        target.len() - 1,
    )) && k >= target.len() {
        lemma_common_prefix(ncx, target, target.len() - 1);
        assert(ncx.take(target.len() - 1) =~= target.take(target.len() - 1));
    }
    assert(k < target.len());
    let m = (ncx.len() - 1 - k) as nat;
    assert(rel.len() > 0) by {
        assert(rel[m as int] == target[k]);
    }
    assert forall|i: int, j: int| 0 <= i < rel.len() && 0 <= j < rel[i].len() implies rel[i][j]
        != '/' by {
        if i >= m {
            assert(rel[i] == target[k + i - m]);
            assert(normal_component(target[k + i - m]));
        }
    }
    lemma_split_join(rel);
    lemma_relative_href_round_trip(ncx, target);
}

/// The pieces that are not empty.
pub open spec fn drop_empty(segs: Seq<Seq<char>>) -> Seq<Seq<char>>
    decreases segs.len(),
{
    if segs.len() == 0 {
        Seq::empty()
    } else if segs.last().len() == 0 {
        drop_empty(segs.drop_last())
    } else {
        drop_empty(segs.drop_last()).push(segs.last())
    }
}

/// The components of a relative path once it is cleaned lexically: its
/// non-empty pieces between `/`, normalised, or `.` where nothing is left.
pub open spec fn cleaned_components(s: Seq<char>) -> Seq<Seq<char>> {
    let n = normalize(drop_empty(split_slash(s)));
    if n.len() == 0 {
        seq![seq!['.']]
    } else {
        n
    }
}

/// A path that begins with `/`.
pub open spec fn is_rooted(s: Seq<char>) -> bool {
    s.len() > 0 && s[0] == '/'
}

/// Relies on path_clean::clean: of a relative path it keeps the components
/// other than empty ones and `.`, a `..` removing the name before it (else
/// kept), and gives `.` where nothing is left.
#[verifier::external_body]
fn clean_components(path: &str) -> (r: Vec<String>)
    requires
        !is_rooted(path@),
    ensures
        views(r@) == cleaned_components(path@),
{
    path_clean::clean(path).iter().map(|c| c.to_string_lossy().into_owned()).collect()
}

/// Relies on common_path::common_path: the leading components that two paths
/// share, or `None` where they share none.
#[verifier::external_body]
fn shared_leading_components(a: &Vec<String>, b: &Vec<String>) -> (r: Option<Vec<String>>)
    requires
        all_normal(views(a@)),
        all_normal(views(b@)),
    ensures
        match r {
            None => common_prefix_len(views(a@), views(b@)) == 0,
            Some(c) => common_prefix_len(views(a@), views(b@)) > 0 && views(c@) == views(
                a@,
            ).take(common_prefix_len(views(a@), views(b@)) as int),
        },
{
    let pa: std::path::PathBuf = a.iter().collect();
    let pb: std::path::PathBuf = b.iter().collect();
    common_path::common_path(&pa, &pb).map(
        |p| p.iter().map(|c| c.to_string_lossy().into_owned()).collect(),
    )
}

/// Joins the strings with `/` between them.
pub fn join_with_slash(v: &Vec<String>) -> (r: String)
    ensures
        r@ == join_slash(views(v@)),
{
    let mut acc = String::new();
    let mut i: usize = 0;
    proof {
        reveal_strlit("/");
    }
    assert(views(v@).take(0) =~= Seq::<Seq<char>>::empty());
    while i < v.len()
        invariant
            i <= v@.len(),
            acc@ == join_slash(views(v@).take(i as int)),
            "/"@ == seq!['/'],
        decreases v@.len() - i,
    {
        let ghost t = views(v@).take(i + 1);
        assert(t.drop_last() =~= views(v@).take(i as int));
        if i == 0 {
            acc = v[i].clone();
        } else {
            acc = acc.concat("/").concat(v[i].as_str());
        }
        i = i + 1;
    }
    assert(views(v@).take(v@.len() as int) =~= views(v@));
    acc
}

fn prefix_eq(a: &Vec<String>, b: &Vec<String>, k: usize) -> (r: bool)
    requires
        k <= a@.len(),
        k <= b@.len(),
    ensures
        r == (views(a@).take(k as int) == views(b@).take(k as int)),
{
    let mut i: usize = 0;
    while i < k
        invariant
            i <= k <= a@.len(),
            k <= b@.len(),
            views(a@).take(i as int) == views(b@).take(i as int),
        decreases k - i,
    {
        if a[i] != b[i] {
            assert(views(a@).take(k as int)[i as int] != views(b@).take(k as int)[i as int]);
            return false;
        }
        assert(views(a@).take(i + 1) =~= views(b@).take(i + 1));
        i = i + 1;
    }
    true
}

/// The href from the NCX to a target, both given by their components from the
/// archive root.
pub fn relative_href(ncx: &Vec<String>, target: &Vec<String>) -> (r: String)
    requires
        ncx@.len() > 0,
        target@.len() > 0,
        all_normal(views(ncx@)),
        all_normal(views(target@)),
    ensures
        r@ == join_slash(relative_components(views(ncx@), views(target@))),
{
    let ghost n = views(ncx@);
    let ghost t = views(target@);
    proof {
        lemma_common_prefix(n, t, 0);
    }
    let pt = target.len() - 1;
    let k: usize;
    if ncx.len() == target.len() && prefix_eq(ncx, target, pt) {
        // the target lies in the NCX's own directory
        k = pt;
    } else if ncx.len() > pt && prefix_eq(ncx, target, pt) {
        // the NCX lies below the target's directory
        k = pt;
    } else {
        assert(!(n.len() > pt && n.take(pt as int) == t.take(pt as int)));
        match shared_leading_components(ncx, target) {
            // the two paths part below the archive root
            Some(common) => {
                assert(views(common@).len() == common@.len());
                assert(common@.len() == common_prefix_len(n, t));
                if common.len() < ncx.len() - 1 {
                    k = common.len();
                } else {
                    k = ncx.len() - 1;
                }
            },
            // the two paths part at the archive root
            None => {
                k = 0;
            },
        }
    }
    assert(k == href_base_len(n, t));
    let mut comps: Vec<String> = Vec::new();
    let mut j: usize = 0;
    proof {
        reveal_strlit("..");
    }
    while j < ncx.len() - 1 - k
        invariant
            k <= ncx@.len() - 1,
            j <= ncx@.len() - 1 - k,
            views(comps@) == dotdots(j as nat),
            ".."@ == seq!['.', '.'],
        decreases ncx@.len() - 1 - k - j,
    {
        let up = String::from_str("..");
        let ghost before = views(comps@);
        comps.push(up);
        assert(views(comps@) =~= before.push(up@));
        assert(views(comps@) =~= dotdots((j + 1) as nat));
        j = j + 1;
    }
    let mut i: usize = k;
    assert(t.skip(k as int).take(0) =~= Seq::<Seq<char>>::empty());
    assert(views(comps@) =~= dotdots(j as nat) + t.skip(k as int).take(0));
    while i < target.len()
        invariant
            k <= i <= target@.len(),
            t == views(target@),
            j == ncx@.len() - 1 - k,
            views(comps@) == dotdots(j as nat) + t.skip(k as int).take(i - k),
        decreases target@.len() - i,
    {
        let ghost before = views(comps@);
        comps.push(target[i].clone());
        assert(t.skip(k as int).take(i + 1 - k) =~= t.skip(k as int).take(i - k).push(t[i as int]));
        assert(views(comps@) =~= before.push(t[i as int]));
        i = i + 1;
    }
    assert(t.skip(k as int).take(target@.len() - k) =~= t.skip(k as int));
    join_with_slash(&comps)
}

proof fn lemma_valid_is_normal(s: Seq<char>)
    requires
        valid_inside_path(s),
    ensures
        all_normal(split_slash(s)),
        split_slash(s).len() > 0,
{
    lemma_split_slash_nonempty(s);
    let segs = split_slash(s);
    assert forall|i: int| 0 <= i < segs.len() implies normal_component(#[trigger] segs[i]) by {
        assert(valid_component(segs[i]));
        assert(seq!['.'].last() == '.');
        assert(seq!['.', '.'].last() == '.');
        assert forall|j: int| 0 <= j < segs[i].len() implies #[trigger] segs[i][j] != '/' by {
            assert(!forbidden_char(segs[i][j]));
        }
    }
}

/// The components of a relative path once each `\\` is turned into `/` and the
/// path is cleaned lexically: `.` and empty pieces vanish, `..` removes the
/// name before it.
pub fn fixed_clean(path: &str) -> (r: Vec<String>)
    requires
        !is_rooted(unify_separators(path@)),
    ensures
        views(r@) == cleaned_components(unify_separators(path@)),
{
    let unified = join_with_slash(&split_at_char(path, '\\'));
    clean_components(unified.as_str())
}

proof fn lemma_drop_empty_keeps(segs: Seq<Seq<char>>)
    requires
        forall|i: int| 0 <= i < segs.len() ==> (#[trigger] segs[i]).len() > 0,
    ensures
        drop_empty(segs) == segs,
    decreases segs.len(),
{
    if segs.len() > 0 {
        lemma_drop_empty_keeps(segs.drop_last());
        assert(segs.drop_last().push(segs.last()) =~= segs);
    }
}

/// A valid path is relative, and cleaning it gives back its pieces.
proof fn lemma_valid_is_clean(s: Seq<char>)
    requires
        valid_inside_path(s),
    ensures
        !is_rooted(s),
        cleaned_components(s) == split_slash(s),
{
    lemma_valid_is_normal(s);
    let segs = split_slash(s);
    if is_rooted(s) {
        lemma_split_first_empty(s, '/');
        assert(valid_component(segs[0]));
    }
    assert forall|i: int| 0 <= i < segs.len() implies (#[trigger] segs[i]).len() > 0 by {
        assert(normal_component(segs[i]));
    }
    lemma_drop_empty_keeps(segs);
    lemma_normalize_names(Seq::empty(), segs, Seq::empty());
    assert(segs + Seq::<Seq<char>>::empty() =~= segs);
    assert(Seq::<Seq<char>>::empty() + segs =~= segs);
}

proof fn lemma_split_first_empty(s: Seq<char>, sep: char)
    requires
        s.len() > 0,
        s[0] == sep,
    ensures
        split_on(s, sep).len() >= 2,
        split_on(s, sep)[0].len() == 0,
    decreases s.len(),
{
    if s.len() == 1 {
        assert(s.drop_last() =~= Seq::<char>::empty());
    } else {
        assert(s.drop_last()[0] == sep);
        lemma_split_first_empty(s.drop_last(), sep);
    }
}

proof fn lemma_valid_has_one_separator(s: Seq<char>)
    requires
        valid_inside_path(s),
    ensures
        unify_separators(s) == s,
{
    assert forall|i: int| 0 <= i < s.len() implies s[i] != '\\' by {
        if s[i] == '\\' {
            lemma_char_in_piece(s, '/', i);
            let (j, k) = choose|j: int, k: int|
                0 <= j < split_on(s, '/').len() && 0 <= k < split_on(s, '/')[j].len()
                    && #[trigger] split_on(s, '/')[j][k] == s[i];
            assert(valid_component(split_slash(s)[j]));
            assert(!forbidden_char(split_slash(s)[j][k]));
        }
    }
    lemma_split_on_absent(s, '\\');
}

/// `p` appended to the directory `dir`.
pub fn join_dir(dir: &str, p: &str) -> (r: String)
    ensures
        r@ == join_path(dir@, p@),
{
    proof {
        reveal_strlit("/");
    }
    let nd = dir.unicode_len();
    let np = p.unicode_len();
    if nd == 0 || (np > 0 && p.get_char(0) == '/') {
        p.to_owned()
    } else if dir.get_char(nd - 1) == '/' {
        dir.to_owned().concat(p)
    } else {
        dir.to_owned().concat("/").concat(p)
    }
}

/// The directory part of a path: what stands before its last `/`.
pub fn parent_of(s: &str) -> (r: String)
    ensures
        r@ == parent_dir(s@),
{
    let n = s.unicode_len();
    let mut i: usize = n;
    assert(s@.take(n as int) =~= s@);
    while i > 0
        invariant
            i <= n == s@.len(),
            last_slash(s@) == last_slash(s@.take(i as int)),
        decreases i,
    {
        assert(s@.take(i as int).drop_last() =~= s@.take(i - 1));
        if s.get_char(i - 1) == '/' {
            return s.substring_char(0, i - 1).to_owned();
        }
        i = i - 1;
    }
    String::new()
}

/// The href from the NCX to a file, both given relative to the OPF's directory;
/// both paths, once appended to that directory, must be valid in the archive.
pub fn get_ncx_path_to_file(
    opf_parent_path: &str,
    ncx_path_from_opf: &str,
    file_path_from_opf: &str,
) -> (r: String)
    requires
        valid_inside_path(join_path(opf_parent_path@, ncx_path_from_opf@)),
        valid_inside_path(join_path(opf_parent_path@, file_path_from_opf@)),
    ensures
        r@ == join_slash(
            relative_components(
                split_slash(join_path(opf_parent_path@, ncx_path_from_opf@)),
                split_slash(join_path(opf_parent_path@, file_path_from_opf@)),
            ),
        ),
{
    let ncx_path = join_dir(opf_parent_path, ncx_path_from_opf);
    let file_path = join_dir(opf_parent_path, file_path_from_opf);
    proof {
        lemma_valid_is_normal(ncx_path@);
        lemma_valid_is_normal(file_path@);
        lemma_valid_has_one_separator(ncx_path@);
        lemma_valid_has_one_separator(file_path@);
        lemma_valid_is_clean(ncx_path@);
        lemma_valid_is_clean(file_path@);
    }
    let ncx = fixed_clean(ncx_path.as_str());
    let file = fixed_clean(file_path.as_str());
    relative_href(&ncx, &file)
}

} // verus!
