//! Names of named roots: the characters they keep, and their order.

use vstd::prelude::*;
use vstd::string::StrSliceExecFns;
use crate::cid::Cid;

verus! {

/// Whether a character may stand in a named root's file name: an ASCII
/// letter or digit, `-`, `_` or `.`.
pub open spec fn is_name_char(c: char) -> bool {
    ('a' <= c <= 'z') || ('A' <= c <= 'Z') || ('0' <= c <= '9') || c == '-' || c == '_' || c == '.'
}

/// The character that stands for `c` in a file name: `c` itself where it
/// may stand there, `_` otherwise.
pub open spec fn name_char(c: char) -> char {
    if is_name_char(c) {
        c
    } else {
        '_'
    }
}

/// The file name of a named root: each character of the name, or `_` in
/// its place.
pub open spec fn sanitized(name: Seq<char>) -> Seq<char> {
    Seq::new(name.len(), |i: int| name_char(name[i]))
}

/// `String::push`: appends one character.
#[verifier::external_body]
fn push_char(text: &mut String, c: char)
    ensures
        final(text)@ == old(text)@.push(c),
{
    text.push(c)
}

/// The file name of a named root.
pub fn sanitize(name: &str) -> (safe: String)
    ensures
        safe@ == sanitized(name@),
{
    let mut safe = String::new();
    let len = name.unicode_len();
    let mut i: usize = 0;
    while i < len
        invariant
            i <= len,
            len == name@.len(),
            safe@ == sanitized(name@).subrange(0, i as int),
        decreases len - i,
    {
        let c = name.get_char(i);
        let keep = ('a' <= c && c <= 'z') || ('A' <= c && c <= 'Z') || ('0' <= c && c <= '9') || c
            == '-' || c == '_' || c == '.';
        let out = if keep { c } else { '_' };
        push_char(&mut safe, out);
        assert(sanitized(name@).subrange(0, i + 1) == sanitized(name@).subrange(0, i as int).push(
            out,
        ));
        i += 1;
    }
    assert(sanitized(name@).subrange(0, len as int) == sanitized(name@));
    safe
}

/// Whether `a` comes before `b` in the order of strings: at the first
/// place where they differ `a` has the smaller code point, or `a` ends
/// there and `b` does not.
pub open spec fn text_lt(a: Seq<char>, b: Seq<char>) -> bool
    decreases a.len(),
{
    if b.len() == 0 {
        false
    } else if a.len() == 0 {
        true
    } else if a[0] != b[0] {
        a[0] < b[0]
    } else {
        text_lt(a.drop_first(), b.drop_first())
    }
}

/// No string comes before itself.
pub proof fn lemma_text_lt_irreflexive(a: Seq<char>)
    ensures
        !text_lt(a, a),
    decreases a.len(),
{
    if a.len() > 0 {
        lemma_text_lt_irreflexive(a.drop_first());
    }
}

/// Of two different strings one comes before the other.
pub proof fn lemma_text_lt_total(a: Seq<char>, b: Seq<char>)
    ensures
        a == b || text_lt(a, b) || text_lt(b, a),
    decreases a.len(),
{
    if a.len() == 0 || b.len() == 0 {
        if a.len() == 0 && b.len() == 0 {
            assert(a =~= b);
        }
    } else if a[0] == b[0] {
        lemma_text_lt_total(a.drop_first(), b.drop_first());
        if a.drop_first() == b.drop_first() {
            assert(a =~= seq![a[0]] + a.drop_first());
            assert(b =~= seq![b[0]] + b.drop_first());
        }
    }
}

/// The order of strings is transitive.
pub proof fn lemma_text_lt_transitive(a: Seq<char>, b: Seq<char>, c: Seq<char>)
    requires
        text_lt(a, b),
        text_lt(b, c),
    ensures
        text_lt(a, c),
    decreases a.len(),
{
    if a.len() > 0 && b.len() > 0 && c.len() > 0 {
        if a[0] == b[0] && b[0] == c[0] {
            lemma_text_lt_transitive(a.drop_first(), b.drop_first(), c.drop_first());
        }
    }
}

/// Whether `a` comes before `b` in the order of strings.
pub fn comes_before(a: &str, b: &str) -> (r: bool)
    ensures
        r == text_lt(a@, b@),
{
    let a_len = a.unicode_len();
    let b_len = b.unicode_len();
    let mut i: usize = 0;
    assert(a@.skip(0) == a@ && b@.skip(0) == b@);
    while i < a_len && i < b_len
        invariant
            i <= a_len,
            i <= b_len,
            a_len == a@.len(),
            b_len == b@.len(),
            text_lt(a@, b@) == text_lt(a@.skip(i as int), b@.skip(i as int)),
        decreases a_len - i,
    {
        let in_a = a.get_char(i);
        let in_b = b.get_char(i);
        proof {
            assert(a@.skip(i as int)[0] == in_a);
            assert(b@.skip(i as int)[0] == in_b);
            assert(a@.skip(i as int).drop_first() == a@.skip(i + 1));
            assert(b@.skip(i as int).drop_first() == b@.skip(i + 1));
        }
        if in_a != in_b {
            return in_a < in_b;
        }
        i += 1;
    }
    i < b_len
}

/// Whether the names of a list ascend strictly, so that no name occurs
/// twice.
pub open spec fn names_ascend(roots: Seq<(String, Cid)>) -> bool {
    forall|i: int, j: int|
        0 <= i < j < roots.len() ==> text_lt((#[trigger] roots[i]).0@, (#[trigger] roots[j]).0@)
}

/// Whether the names of a list ascend strictly: the test for a list that
/// comes from elsewhere, before it is searched or changed.
pub fn names_in_order(roots: &Vec<(String, Cid)>) -> (r: bool)
    ensures
        r == names_ascend(roots@),
{
    let mut i: usize = 1;
    while i < roots.len()
        invariant
            1 <= i,
            forall|a: int, b: int|
                0 <= a < b < i && b < roots@.len() ==> text_lt(
                    (#[trigger] roots@[a]).0@,
                    (#[trigger] roots@[b]).0@,
                ),
        decreases roots@.len() - i,
    {
        if !comes_before(roots[i - 1].0.as_str(), roots[i].0.as_str()) {
            assert(!text_lt(roots@[i - 1].0@, roots@[i as int].0@));
            return false;
        }
        proof {
            assert forall|a: int, b: int| 0 <= a < b < i + 1 && b < roots@.len() implies text_lt(
                (#[trigger] roots@[a]).0@,
                (#[trigger] roots@[b]).0@,
            ) by {
                if b == i && a < i - 1 {
                    lemma_text_lt_transitive(roots@[a].0@, roots@[i - 1].0@, roots@[i as int].0@);
                }
            }
        }
        i += 1;
    }
    true
}

/// The identifier that a list gives for a name: that of the last entry
/// with the name.
pub open spec fn named_lookup(roots: Seq<(String, Cid)>, name: Seq<char>) -> Option<Cid>
    decreases roots.len(),
{
    if roots.len() == 0 {
        None
    } else if roots.last().0@ == name {
        Some(roots.last().1)
    } else {
        named_lookup(roots.drop_last(), name)
    }
}

/// In a list whose names ascend, the entry at `i` is what the list gives
/// for its name.
pub proof fn lemma_lookup_finds(roots: Seq<(String, Cid)>, i: int)
    requires
        names_ascend(roots),
        0 <= i < roots.len(),
    ensures
        named_lookup(roots, roots[i].0@) == Some(roots[i].1),
    decreases roots.len(),
{
    if i < roots.len() - 1 {
        lemma_text_lt_irreflexive(roots[i].0@);
        assert(text_lt(roots[i].0@, roots.last().0@));
        assert(names_ascend(roots.drop_last())) by {
            assert forall|a: int, b: int| 0 <= a < b < roots.drop_last().len() implies text_lt(
                (#[trigger] roots.drop_last()[a]).0@,
                (#[trigger] roots.drop_last()[b]).0@,
            ) by {
                assert(roots.drop_last()[a] == roots[a]);
                assert(roots.drop_last()[b] == roots[b]);
            }
        }
        assert(roots.drop_last()[i] == roots[i]);
        lemma_lookup_finds(roots.drop_last(), i);
    }
}

/// A list gives nothing for a name that none of its entries has.
pub proof fn lemma_lookup_misses(roots: Seq<(String, Cid)>, name: Seq<char>)
    requires
        forall|i: int| 0 <= i < roots.len() ==> (#[trigger] roots[i]).0@ != name,
    ensures
        named_lookup(roots, name) is None,
    decreases roots.len(),
{
    if roots.len() > 0 {
        assert(roots.last() == roots[roots.len() - 1]);
        assert forall|i: int| 0 <= i < roots.drop_last().len() implies (#[trigger] roots.drop_last()[i]).0@
            != name by {
            assert(roots.drop_last()[i] == roots[i]);
        }
        lemma_lookup_misses(roots.drop_last(), name);
    }
}

/// What a list gives for a name is the identifier of one of its entries
/// with that name.
pub proof fn lemma_lookup_is_entry(roots: Seq<(String, Cid)>, name: Seq<char>)
    requires
        named_lookup(roots, name) is Some,
    ensures
        exists|i: int|
            0 <= i < roots.len() && (#[trigger] roots[i]).0@ == name && roots[i].1 == named_lookup(
                roots,
                name,
            )->0,
    decreases roots.len(),
{
    if roots.len() > 0 {
        if roots.last().0@ == name {
            assert(roots[roots.len() - 1] == roots.last());
        } else {
            lemma_lookup_is_entry(roots.drop_last(), name);
            let i = choose|i: int|
                0 <= i < roots.drop_last().len() && (#[trigger] roots.drop_last()[i]).0@ == name
                    && roots.drop_last()[i].1 == named_lookup(roots.drop_last(), name)->0;
            assert(roots[i] == roots.drop_last()[i]);
        }
    }
}

/// Puts a named root into a list whose names ascend: it takes the place of
/// the entry with its name, or else its place in the order.
pub fn insert_named(roots: &mut Vec<(String, Cid)>, name: String, cid: Cid)
    requires
        names_ascend(old(roots)@),
    ensures
        names_ascend(final(roots)@),
        forall|other: Seq<char>|
            #![trigger named_lookup(final(roots)@, other)]
            named_lookup(final(roots)@, other) == if other == name@ {
                Some(cid)
            } else {
                named_lookup(old(roots)@, other)
            },
{
    let ghost before = roots@;
    let mut at: usize = 0;
    while at < roots.len() && comes_before(roots[at].0.as_str(), name.as_str())
        invariant
            at <= roots@.len(),
            roots@ == before,
            forall|i: int| 0 <= i < at ==> text_lt((#[trigger] roots@[i]).0@, name@),
        decreases roots@.len() - at,
    {
        at += 1;
    }
    let replace = at < roots.len() && roots[at].0 == name;
    if replace {
        roots[at] = (name, cid);
    } else {
        roots.insert(at, (name, cid));
    }
    proof {
        let after = roots@;
        assert forall|i: int, j: int| 0 <= i < j < after.len() implies text_lt(
            (#[trigger] after[i]).0@,
            (#[trigger] after[j]).0@,
        ) by {
            let bi = if replace || i <= at { i } else { i - 1 };
            let bj = if replace || j <= at { j } else { j - 1 };
            if j == at {
                assert(text_lt(before[i].0@, name@));
            } else if i == at {
                if replace {
                    assert(text_lt(before[at as int].0@, before[j].0@));
                } else {
                    let k = j - 1;
                    if k == at {
                        lemma_text_lt_total(before[k].0@, name@);
                    } else {
                        lemma_text_lt_total(before[at as int].0@, name@);
                        assert(text_lt(before[at as int].0@, before[k].0@));
                        if name@ != before[at as int].0@ {
                            lemma_text_lt_transitive(name@, before[at as int].0@, before[k].0@);
                        }
                    }
                }
            } else {
                assert(text_lt(before[bi].0@, before[bj].0@));
            }
        }
        assert forall|other: Seq<char>| #![trigger named_lookup(after, other)] named_lookup(after, other) == if other
            == name@ {
            Some(cid)
        } else {
            named_lookup(before, other)
        } by {
            if other == name@ {
                lemma_lookup_finds(after, at as int);
            } else if named_lookup(before, other) is Some {
                lemma_lookup_is_entry(before, other);
                let i = choose|i: int|
                    0 <= i < before.len() && (#[trigger] before[i]).0@ == other && before[i].1
                        == named_lookup(before, other)->0;
                let ai = if replace || i < at { i } else { i + 1 };
                assert(after[ai] == before[i]);
                lemma_lookup_finds(after, ai);
            } else {
                assert forall|i: int| 0 <= i < after.len() implies (#[trigger] after[i]).0@
                    != other by {
                    if i != at {
                        let bi = if replace || i < at { i } else { i - 1 };
                        assert(after[i] == before[bi]);
                        if before[bi].0@ == other {
                            lemma_lookup_finds(before, bi);
                        }
                    }
                }
                lemma_lookup_misses(after, other);
            }
        }
    }
}

/// The named roots of two lists as one list whose names ascend: for a
/// name that both have, the second list's identifier stands.
pub fn merge_named(first: Vec<(String, Cid)>, second: Vec<(String, Cid)>) -> (merged: Vec<
    (String, Cid),
>)
    ensures
        names_ascend(merged@),
        forall|name: Seq<char>|
            #![trigger named_lookup(merged@, name)]
            named_lookup(merged@, name) == match named_lookup(second@, name) {
                Some(cid) => Some(cid),
                None => named_lookup(first@, name),
            },
{
    let mut merged: Vec<(String, Cid)> = Vec::new();
    let mut i: usize = 0;
    while i < first.len()
        invariant
            i <= first@.len(),
            names_ascend(merged@),
            forall|name: Seq<char>|
                #![trigger named_lookup(merged@, name)]
                named_lookup(merged@, name) == named_lookup(first@.subrange(0, i as int), name),
        decreases first@.len() - i,
    {
        let ghost prefix = first@.subrange(0, i as int);
        let ghost before = merged@;
        insert_named(&mut merged, first[i].0.clone(), first[i].1);
        proof {
            let next = first@.subrange(0, i + 1);
            assert(next.drop_last() == prefix);
            assert(next.last() == first@[i as int]);
            assert forall|name: Seq<char>| #![trigger named_lookup(merged@, name)] named_lookup(merged@, name)
                == named_lookup(next, name) by {
                assert(named_lookup(before, name) == named_lookup(prefix, name));
            }
        }
        i += 1;
    }
    assert(first@.subrange(0, first@.len() as int) == first@);
    let ghost from_first = merged@;
    let mut j: usize = 0;
    while j < second.len()
        invariant
            j <= second@.len(),
            names_ascend(merged@),
            forall|name: Seq<char>|
                #![trigger named_lookup(from_first, name)]
                named_lookup(from_first, name) == named_lookup(first@, name),
            forall|name: Seq<char>|
                #![trigger named_lookup(merged@, name)]
                named_lookup(merged@, name) == match named_lookup(
                    second@.subrange(0, j as int),
                    name,
                ) {
                    Some(cid) => Some(cid),
                    None => named_lookup(first@, name),
                },
        decreases second@.len() - j,
    {
        let ghost prefix = second@.subrange(0, j as int);
        let ghost before = merged@;
        insert_named(&mut merged, second[j].0.clone(), second[j].1);
        proof {
            let next = second@.subrange(0, j + 1);
            assert(next.drop_last() == prefix);
            assert(next.last() == second@[j as int]);
            assert forall|name: Seq<char>| #![trigger named_lookup(merged@, name)] named_lookup(merged@, name)
                == match named_lookup(next, name) {
                Some(cid) => Some(cid),
                None => named_lookup(first@, name),
            } by {
                assert(named_lookup(before, name) == match named_lookup(prefix, name) {
                    Some(cid) => Some(cid),
                    None => named_lookup(first@, name),
                });
            }
        }
        j += 1;
    }
    assert(second@.subrange(0, second@.len() as int) == second@);
    merged
}

/// The place of the entry with a name, if the list has one.
pub fn find_named(roots: &Vec<(String, Cid)>, name: &str) -> (found: Option<usize>)
    ensures
        match found {
            Some(at) => at < roots@.len() && roots@[at as int].0@ == name@,
            None => forall|i: int| 0 <= i < roots@.len() ==> (#[trigger] roots@[i]).0@ != name@,
        },
{
    let wanted = crate::text::owned(name);
    let mut i: usize = 0;
    while i < roots.len()
        invariant
            i <= roots@.len(),
            wanted@ == name@,
            forall|k: int| 0 <= k < i ==> (#[trigger] roots@[k]).0@ != name@,
        decreases roots@.len() - i,
    {
        if roots[i].0 == wanted {
            return Some(i);
        }
        i += 1;
    }
    None
}

/// The identifier that a list whose names ascend gives for a name.
pub fn lookup_named(roots: &Vec<(String, Cid)>, name: &str) -> (found: Option<Cid>)
    requires
        names_ascend(roots@),
    ensures
        found == named_lookup(roots@, name@),
{
    match find_named(roots, name) {
        Some(at) => {
            proof {
                lemma_lookup_finds(roots@, at as int);
            }
            Some(roots[at].1)
        },
        None => {
            proof {
                lemma_lookup_misses(roots@, name@);
            }
            None
        },
    }
}

/// Takes the entry with a name out of a list whose names ascend; `true` if
/// there was one.
pub fn remove_named(roots: &mut Vec<(String, Cid)>, name: &str) -> (removed: bool)
    requires
        names_ascend(old(roots)@),
    ensures
        names_ascend(final(roots)@),
        removed == (named_lookup(old(roots)@, name@) is Some),
        forall|other: Seq<char>|
            #![trigger named_lookup(final(roots)@, other)]
            named_lookup(final(roots)@, other) == if other == name@ {
                None
            } else {
                named_lookup(old(roots)@, other)
            },
{
    let ghost before = roots@;
    match find_named(roots, name) {
        Some(at) => {
            roots.remove(at);
            proof {
                let after = roots@;
                lemma_lookup_finds(before, at as int);
                assert forall|i: int, j: int| 0 <= i < j < after.len() implies text_lt(
                    (#[trigger] after[i]).0@,
                    (#[trigger] after[j]).0@,
                ) by {
                    let bi = if i < at { i } else { i + 1 };
                    let bj = if j < at { j } else { j + 1 };
                    assert(text_lt(before[bi].0@, before[bj].0@));
                }
                assert forall|other: Seq<char>| #![trigger named_lookup(after, other)] named_lookup(after, other)
                    == if other == name@ {
                    None
                } else {
                    named_lookup(before, other)
                } by {
                    if named_lookup(after, other) is Some {
                        lemma_lookup_is_entry(after, other);
                        let i = choose|i: int|
                            0 <= i < after.len() && (#[trigger] after[i]).0@ == other && after[i].1
                                == named_lookup(after, other)->0;
                        let bi = if i < at { i } else { i + 1 };
                        assert(before[bi] == after[i]);
                        lemma_lookup_finds(before, bi);
                        if other == name@ {
                            lemma_text_lt_irreflexive(name@);
                            assert(text_lt(before[bi].0@, before[at as int].0@) || text_lt(
                                before[at as int].0@,
                                before[bi].0@,
                            ));
                        }
                    } else if other != name@ && named_lookup(before, other) is Some {
                        lemma_lookup_is_entry(before, other);
                        let i = choose|i: int|
                            0 <= i < before.len() && (#[trigger] before[i]).0@ == other
                                && before[i].1 == named_lookup(before, other)->0;
                        let ai = if i < at { i } else { i - 1 };
                        assert(after[ai] == before[i]);
                        lemma_lookup_finds(after, ai);
                    }
                }
            }
            true
        },
        None => {
            proof {
                lemma_lookup_misses(before, name@);
            }
            false
        },
    }
}

/// A copy of a list of named roots.
pub fn copy_named(roots: &Vec<(String, Cid)>) -> (copy: Vec<(String, Cid)>)
    ensures
        copy@ == roots@,
{
    let mut copy: Vec<(String, Cid)> = Vec::new();
    let mut i: usize = 0;
    while i < roots.len()
        invariant
            i <= roots@.len(),
            copy@ == roots@.subrange(0, i as int),
        decreases roots@.len() - i,
    {
        copy.push((roots[i].0.clone(), roots[i].1));
        assert(roots@.subrange(0, i + 1) == roots@.subrange(0, i as int).push(roots@[i as int]));
        i += 1;
    }
    assert(roots@.subrange(0, roots@.len() as int) == roots@);
    copy
}

} // verus!
