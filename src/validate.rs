use vstd::prelude::*;

use crate::config::BuildError;
use crate::paths::{valid_component, valid_inside_path, forbidden_char};
use crate::text::{
    char_eq_ignore_ascii_case, eq_ignore_ascii_case, lemma_split_slash_nonempty, split_at_slashes,
    split_slash, str_eq_ignore_ascii_case, utf8_len_exceeds, views,
};

verus! {

/// Some entry of `v` equals an earlier one up to ASCII case.
pub open spec fn has_case_insensitive_duplicate(v: Seq<Seq<char>>) -> bool {
    exists|i: int, j: int| 0 <= i < j < v.len() && eq_ignore_ascii_case(v[i], v[j])
}

/// Entry `j` of `v` equals an earlier one up to ASCII case.
pub open spec fn repeats_earlier(v: Seq<Seq<char>>, j: int) -> bool {
    exists|i: int| 0 <= i < j && eq_ignore_ascii_case(v[i], v[j])
}

/// The index of the first entry of `v` that equals an earlier one up to ASCII case.
pub fn find_case_insensitive_duplicate(v: &Vec<String>) -> (r: Option<usize>)
    ensures
        r is None <==> !has_case_insensitive_duplicate(views(v@)),
        r matches Some(j) ==> j < v@.len() && repeats_earlier(views(v@), j as int),
{
    let mut j: usize = 0;
    while j < v.len()
        invariant
            j <= v@.len(),
            forall|a: int, b: int|
                0 <= a < b < j ==> !eq_ignore_ascii_case(#[trigger] views(v@)[a], #[trigger] views(v@)[b]),
        decreases v@.len() - j,
    {
        let mut i: usize = 0;
        while i < j
            invariant
                i <= j < v@.len(),
                forall|a: int| 0 <= a < i ==> !eq_ignore_ascii_case(#[trigger] views(v@)[a], views(v@)[j as int]),
            decreases j - i,
        {
            if str_eq_ignore_ascii_case(v[i].as_str(), v[j].as_str()) {
                assert(eq_ignore_ascii_case(views(v@)[i as int], views(v@)[j as int]));
                return Some(j);
            }
            i = i + 1;
        }
        j = j + 1;
    }
    None
}

/// Fails with the first path that equals an earlier one up to ASCII case.
pub fn check_no_duplicate_inside_paths(inside_paths: &Vec<String>) -> (r: Result<(), BuildError>)
    ensures
        r is Ok <==> !has_case_insensitive_duplicate(views(inside_paths@)),
        r matches Err(e) ==> (e matches BuildError::Collision { name } && exists|j: int|
            0 <= j < inside_paths@.len() && name@ == inside_paths@[j]@ && repeats_earlier(
                views(inside_paths@),
                j,
            )),
{
    match find_case_insensitive_duplicate(inside_paths) {
        None => Ok(()),
        Some(j) => Err(BuildError::Collision { name: inside_paths[j].clone() }),
    }
}

/// Fails with the first identifier that equals an earlier one up to ASCII case.
pub fn check_no_id_collisions(ids: &Vec<String>) -> (r: Result<(), BuildError>)
    ensures
        r is Ok <==> !has_case_insensitive_duplicate(views(ids@)),
        r matches Err(e) ==> (e matches BuildError::Collision { name } && exists|j: int|
            0 <= j < ids@.len() && name@ == ids@[j]@ && repeats_earlier(views(ids@), j)),
{
    match find_case_insensitive_duplicate(ids) {
        None => Ok(()),
        Some(j) => Err(BuildError::Collision { name: ids[j].clone() }),
    }
}

fn component_is_valid(c: &str) -> (r: bool)
    ensures
        r == valid_component(c@),
{
    let n = c.unicode_len();
    if n == 0 {
        return false;
    }
    let mut i: usize = 0;
    while i < n
        invariant
            n == c@.len(),
            i <= n,
            forall|j: int| 0 <= j < i ==> !forbidden_char(#[trigger] c@[j]),
        decreases n - i,
    {
        let ch = c.get_char(i);
        if ch == '/' || ch == '"' || ch == '*' || ch == ':' || ch == '<' || ch == '>' || ch == '?'
            || ch == '\\' {
            assert(forbidden_char(c@[i as int]));
            return false;
        }
        i = i + 1;
    }
    c.get_char(n - 1) != '.'
}

/// Fails where the path may not name an entry of the archive: a component that is
/// empty, holds one of `/ " * : < > ? \` or ends in `.`, a file name over 255
/// bytes, or a path over 65535 bytes.
pub fn check_inside_path_is_valid(inside_path: &str) -> (r: Result<(), BuildError>)
    ensures
        r is Ok <==> valid_inside_path(inside_path@),
        r matches Err(e) ==> (e matches BuildError::Path { path } && path@ == inside_path@),
{
    let segs = split_at_slashes(inside_path);
    proof {
        lemma_split_slash_nonempty(inside_path@);
    }
    let ghost s = split_slash(inside_path@);
    let mut i: usize = 0;
    while i < segs.len()
        invariant
            i <= segs@.len(),
            views(segs@) == s,
            s == split_slash(inside_path@),
            forall|j: int| 0 <= j < i ==> valid_component(#[trigger] s[j]),
        decreases segs@.len() - i,
    {
        assert(views(segs@)[i as int] == segs@[i as int]@);
        if !component_is_valid(segs[i].as_str()) {
            assert(!valid_component(s[i as int]));
            return Err(BuildError::Path { path: inside_path.to_owned() });
        }
        i = i + 1;
    }
    let last = segs.len() - 1;
    assert(views(segs@)[last as int] == segs@[last as int]@);
    if utf8_len_exceeds(segs[last].as_str(), 255) {
        return Err(BuildError::Path { path: inside_path.to_owned() });
    }
    if utf8_len_exceeds(inside_path, 65535) {
        return Err(BuildError::Path { path: inside_path.to_owned() });
    }
    Ok(())
}

/// The decimal digit `d`.
pub open spec fn digit_char(d: int) -> char {
    if d == 0 {
        '0'
    } else if d == 1 {
        '1'
    } else if d == 2 {
        '2'
    } else if d == 3 {
        '3'
    } else if d == 4 {
        '4'
    } else if d == 5 {
        '5'
    } else if d == 6 {
        '6'
    } else if d == 7 {
        '7'
    } else if d == 8 {
        '8'
    } else {
        '9'
    }
}

/// The decimal numeral of `n`.
pub open spec fn decimal(n: nat) -> Seq<char>
    decreases n,
{
    if n < 10 {
        seq![digit_char(n as int)]
    } else {
        decimal(n / 10).push(digit_char((n % 10) as int))
    }
}

/// The `m`-th candidate for a fresh identifier: `BookId`, `BookId_1`, `BookId_2`, ...
pub open spec fn uid_candidate(m: nat) -> Seq<char> {
    let stem = seq!['B', 'o', 'o', 'k', 'I', 'd'];
    if m == 0 {
        stem
    } else {
        stem + seq!['_'] + decimal(m)
    }
}

/// `c` equals some entry of `ids` up to ASCII case.
pub open spec fn collides_with_any(ids: Seq<Seq<char>>, c: Seq<char>) -> bool {
    exists|i: int| 0 <= i < ids.len() && eq_ignore_ascii_case(ids[i], c)
}

/// `r` is the first candidate that collides with none of `ids`.
pub open spec fn is_safe_uid(ids: Seq<Seq<char>>, r: Seq<char>) -> bool {
    exists|m: nat|
        r == uid_candidate(m) && !collides_with_any(ids, uid_candidate(m)) && forall|k: nat|
            k < m ==> collides_with_any(ids, #[trigger] uid_candidate(k))
}

proof fn lemma_decimal_digits(n: nat)
    ensures
        decimal(n).len() >= 1,
        forall|i: int| 0 <= i < decimal(n).len() ==> '0' <= #[trigger] decimal(n)[i] <= '9',
    decreases n,
{
    if n >= 10 {
        lemma_decimal_digits(n / 10);
    }
}

proof fn lemma_decimal_injective(a: nat, b: nat)
    requires
        decimal(a) == decimal(b),
    ensures
        a == b,
    decreases a,
{
    lemma_decimal_digits(a);
    lemma_decimal_digits(b);
    if a >= 10 && b >= 10 {
        lemma_decimal_digits(a / 10);
        lemma_decimal_digits(b / 10);
        assert(decimal(a).drop_last() =~= decimal(a / 10));
        assert(decimal(b).drop_last() =~= decimal(b / 10));
        lemma_decimal_injective(a / 10, b / 10);
        assert(decimal(a).last() == digit_char((a % 10) as int));
        assert(decimal(b).last() == digit_char((b % 10) as int));
        assert(a % 10 == b % 10);
        assert(a == (a / 10) * 10 + a % 10);
        assert(b == (b / 10) * 10 + b % 10);
        assert(a == b);
    } else if a >= 10 {
        lemma_decimal_digits(a / 10);
        assert(decimal(a).len() >= 2);
    } else if b >= 10 {
        lemma_decimal_digits(b / 10);
        assert(decimal(b).len() >= 2);
    } else {
        assert(decimal(a) == seq![digit_char(a as int)]);
        assert(decimal(b) == seq![digit_char(b as int)]);
        assert(seq![digit_char(a as int)][0] == digit_char(a as int));
        assert(seq![digit_char(b as int)][0] == digit_char(b as int));
        assert(decimal(a)[0] == decimal(b)[0]);
        assert(digit_char(a as int) == digit_char(b as int));
        assert(a == b);
    }
}

proof fn lemma_case_fold_shared(x: Seq<char>, a: Seq<char>, b: Seq<char>)
    requires
        eq_ignore_ascii_case(x, a),
        eq_ignore_ascii_case(x, b),
    ensures
        eq_ignore_ascii_case(a, b),
{
    assert forall|i: int| 0 <= i < a.len() implies char_eq_ignore_ascii_case(a[i], b[i]) by {
        assert(char_eq_ignore_ascii_case(x[i], a[i]));
        assert(char_eq_ignore_ascii_case(x[i], b[i]));
    }
}

proof fn lemma_candidates_differ(j: nat, m: nat)
    requires
        j < m,
    ensures
        !eq_ignore_ascii_case(uid_candidate(j), uid_candidate(m)),
{
    lemma_decimal_digits(m);
    lemma_decimal_digits(j);
    if eq_ignore_ascii_case(uid_candidate(j), uid_candidate(m)) && j > 0 {
        let cj = uid_candidate(j);
        let cm = uid_candidate(m);
        assert forall|i: int| 0 <= i < decimal(j).len() implies decimal(j)[i] == decimal(m)[i] by {
            assert(cj[7 + i] == decimal(j)[i]);
            assert(cm[7 + i] == decimal(m)[i]);
            assert(char_eq_ignore_ascii_case(cj[7 + i], cm[7 + i]));
        }
        assert(decimal(j) =~= decimal(m));
        lemma_decimal_injective(j, m);
    }
}

proof fn lemma_distinct_bounded(w: Seq<int>, n: int)
    requires
        w.no_duplicates(),
        n >= 0,
        forall|i: int| 0 <= i < w.len() ==> 0 <= #[trigger] w[i] < n,
    ensures
        w.len() <= n,
{
    w.unique_seq_to_set();
    vstd::set_lib::lemma_int_range(0, n);
    assert(w.to_set().subset_of(vstd::set_lib::set_int_range(0, n)));
    vstd::set_lib::lemma_len_subset(w.to_set(), vstd::set_lib::set_int_range(0, n));
}

fn digit_str(d: usize) -> (r: &'static str)
    requires
        d < 10,
    ensures
        r@ == seq![digit_char(d as int)],
{
    proof {
        reveal_strlit("0");
        reveal_strlit("1");
        reveal_strlit("2");
        reveal_strlit("3");
        reveal_strlit("4");
        reveal_strlit("5");
        reveal_strlit("6");
        reveal_strlit("7");
        reveal_strlit("8");
        reveal_strlit("9");
    }
    if d == 0 {
        "0"
    } else if d == 1 {
        "1"
    } else if d == 2 {
        "2"
    } else if d == 3 {
        "3"
    } else if d == 4 {
        "4"
    } else if d == 5 {
        "5"
    } else if d == 6 {
        "6"
    } else if d == 7 {
        "7"
    } else if d == 8 {
        "8"
    } else {
        "9"
    }
}

fn decimal_string(n: usize) -> (r: String)
    ensures
        r@ == decimal(n as nat),
    decreases n,
{
    if n < 10 {
        String::from_str(digit_str(n))
    } else {
        let r = decimal_string(n / 10).concat(digit_str(n % 10));
        assert(r@ =~= decimal(n as nat));
        r
    }
}

fn uid_candidate_string(m: usize) -> (r: String)
    ensures
        r@ == uid_candidate(m as nat),
{
    proof {
        reveal_strlit("BookId");
        reveal_strlit("BookId_");
    }
    if m == 0 {
        let r = String::from_str("BookId");
        assert(r@ =~= uid_candidate(0));
        r
    } else {
        let d = decimal_string(m);
        let r = String::from_str("BookId_").concat(d.as_str());
        assert(r@ =~= uid_candidate(m as nat));
        r
    }
}

fn collides(ids: &Vec<String>, c: &str) -> (r: bool)
    ensures
        r == collides_with_any(views(ids@), c@),
{
    let mut i: usize = 0;
    while i < ids.len()
        invariant
            i <= ids@.len(),
            forall|j: int| 0 <= j < i ==> !eq_ignore_ascii_case(#[trigger] views(ids@)[j], c@),
        decreases ids@.len() - i,
    {
        if str_eq_ignore_ascii_case(ids[i].as_str(), c) {
            assert(eq_ignore_ascii_case(views(ids@)[i as int], c@));
            return true;
        }
        i = i + 1;
    }
    false
}

/// The first of `BookId`, `BookId_1`, `BookId_2`, ... that equals none of the
/// identifiers up to ASCII case.
pub fn get_safe_uid(opf_ids: &Vec<String>) -> (r: String)
    ensures
        is_safe_uid(views(opf_ids@), r@),
{
    let ghost ids = views(opf_ids@);
    let ghost n = opf_ids@.len() as int;
    let mut m: usize = 0;
    let total = opf_ids.len();
    let ghost mut witness: Seq<int> = Seq::empty();
    loop
        invariant
            ids == views(opf_ids@),
            n == opf_ids@.len(),
            total == n,
            m <= n,
            witness.len() == m,
            witness.no_duplicates(),
            forall|j: int|
                0 <= j < m ==> 0 <= #[trigger] witness[j] < n && eq_ignore_ascii_case(
                    ids[witness[j]],
                    uid_candidate(j as nat),
                ),
            forall|k: nat| k < m ==> collides_with_any(ids, #[trigger] uid_candidate(k)),
        decreases n - m,
    {
        let c = uid_candidate_string(m);
        if !collides(opf_ids, c.as_str()) {
            return c;
        }
        proof {
            let w = choose|i: int| 0 <= i < ids.len() && eq_ignore_ascii_case(ids[i], uid_candidate(m as nat));
            assert forall|j: int| 0 <= j < m implies witness[j] != w by {
                if witness[j] == w {
                    lemma_case_fold_shared(ids[w], uid_candidate(j as nat), uid_candidate(m as nat));
                    lemma_candidates_differ(j as nat, m as nat);
                }
            }
            witness = witness.push(w);
            assert forall|a: int, b: int| 0 <= a < b < witness.len() implies witness[a] != witness[b] by {
                if b == m {
                } else {
                    assert(witness[a] == witness.drop_last()[a]);
                }
            }
            lemma_distinct_bounded(witness, n);
        }
        m = m + 1;
    }
}

} // verus!
