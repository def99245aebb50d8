//! Character sequences: searching, slicing and building text.
//!
//! Every string of this crate is read as its sequence of characters
//! (`Seq<char>`, the view of `str` and `String`). The executable functions work
//! on `Vec<char>`, so that an index costs one step.

use vstd::prelude::*;
use vstd::string::StringExecFns;

verus! {

/// `String::push` appends one character to the end of the string.
pub assume_specification[ String::push ](s: &mut String, c: char)
    ensures
        final(s)@ == old(s)@.push(c),
;

/// `pat` stands in `s` at index `i`.
pub open spec fn occurs_at(s: Seq<char>, pat: Seq<char>, i: int) -> bool {
    0 <= i && i + pat.len() <= s.len() && s.subrange(i, i + pat.len()) == pat
}

/// `pat` stands somewhere in `s`.
pub open spec fn occurs(s: Seq<char>, pat: Seq<char>) -> bool {
    exists|i: int| occurs_at(s, pat, i)
}

/// `i` is the least index at which `pat` stands in `s`.
pub open spec fn first_occurrence_at(s: Seq<char>, pat: Seq<char>, i: int) -> bool {
    occurs_at(s, pat, i) && forall|j: int| 0 <= j < i ==> !occurs_at(s, pat, j)
}

/// The least index at which `pat` stands in `s`; meaningful where `occurs(s, pat)`.
pub open spec fn first_occurrence(s: Seq<char>, pat: Seq<char>) -> int {
    choose|i: int| first_occurrence_at(s, pat, i)
}

/// `i` is the least index from `from` on at which `s` holds `c`.
pub open spec fn next_index_at(s: Seq<char>, c: char, from: int, i: int) -> bool {
    0 <= from <= i < s.len() && s[i] == c && forall|j: int| from <= j < i ==> s[j] != c
}

/// `s` holds `c` at some index from `from` on.
pub open spec fn has_from(s: Seq<char>, c: char, from: int) -> bool {
    exists|i: int| 0 <= from <= i < s.len() && s[i] == c
}

/// The least index from `from` on at which `s` holds `c`; meaningful where
/// `has_from(s, c, from)`.
pub open spec fn next_index(s: Seq<char>, c: char, from: int) -> int {
    choose|i: int| next_index_at(s, c, from, i)
}

/// `i` is the greatest index at which `s` holds `c`.
pub open spec fn last_index_at(s: Seq<char>, c: char, i: int) -> bool {
    0 <= i < s.len() && s[i] == c && forall|j: int| i < j < s.len() ==> s[j] != c
}

/// The greatest index at which `s` holds `c`; meaningful where `s.contains(c)`.
pub open spec fn last_index(s: Seq<char>, c: char) -> int {
    choose|i: int| last_index_at(s, c, i)
}

/// `s` with every `from` replaced by `to`.
pub open spec fn replaced(s: Seq<char>, from: char, to: char) -> Seq<char> {
    s.map_values(
        |c: char|
            if c == from {
                to
            } else {
                c
            },
    )
}

/// `s` without the occurrences of `pat`, found from left to right. An empty
/// `pat` takes nothing away.
pub open spec fn without(s: Seq<char>, pat: Seq<char>) -> Seq<char>
    decreases s.len(),
{
    if pat.len() == 0 || s.len() < pat.len() {
        s
    } else if pat.is_prefix_of(s) {
        without(s.skip(pat.len() as int), pat)
    } else {
        seq![s[0]] + without(s.drop_first(), pat)
    }
}

/// The first `n` characters of `s`, or all of it where it is shorter.
pub open spec fn truncated(s: Seq<char>, n: nat) -> Seq<char> {
    if s.len() <= n {
        s
    } else {
        s.take(n as int)
    }
}

/// The texts of `parts` in order, with `sep` between each two.
pub open spec fn joined(parts: Seq<Seq<char>>, sep: char) -> Seq<char>
    decreases parts.len(),
{
    if parts.len() == 0 {
        Seq::empty()
    } else if parts.len() == 1 {
        parts[0]
    } else {
        joined(parts.drop_last(), sep) + seq![sep] + parts.last()
    }
}

/// The texts that `piece` makes of each of `items`, one after the other.
pub open spec fn pieces(items: Seq<Seq<char>>, piece: spec_fn(Seq<char>) -> Seq<char>) -> Seq<
    char,
>
    decreases items.len(),
{
    if items.len() == 0 {
        Seq::empty()
    } else {
        pieces(items.drop_last(), piece) + piece(items.last())
    }
}

/// The view of a string that may be absent.
pub open spec fn option_view(s: Option<String>) -> Option<Seq<char>> {
    match s {
        Some(t) => Some(t@),
        None => None,
    }
}

/// The views of a sequence of strings.
pub open spec fn views(v: Seq<String>) -> Seq<Seq<char>> {
    v.map_values(|s: String| s@)
}

/// `list` with `item` at its end, unless it holds `item` already.
pub open spec fn inserted(list: Seq<Seq<char>>, item: Seq<char>) -> Seq<Seq<char>> {
    if list.contains(item) {
        list
    } else {
        list.push(item)
    }
}

/// `list` after each of `items` was inserted in turn.
pub open spec fn inserted_all(list: Seq<Seq<char>>, items: Seq<Seq<char>>) -> Seq<Seq<char>>
    decreases items.len(),
{
    if items.len() == 0 {
        list
    } else {
        inserted(inserted_all(list, items.drop_last()), items.last())
    }
}

/// Inserting keeps a list free of repetitions, adds the item to what the list
/// holds and nothing else, and changes nothing when done a second time.
pub proof fn lemma_inserted(list: Seq<Seq<char>>, item: Seq<char>)
    requires
        list.no_duplicates(),
    ensures
        inserted(list, item).no_duplicates(),
        inserted(list, item).to_set() == list.to_set().insert(item),
        inserted(inserted(list, item), item) == inserted(list, item),
        list.is_prefix_of(inserted(list, item)),
{
    let r = inserted(list, item);
    assert(r.to_set() =~= list.to_set().insert(item)) by {
        assert forall|x: Seq<char>| r.to_set().contains(x) <==> list.to_set().insert(
            item,
        ).contains(x) by {
            if !list.contains(item) {
                if list.contains(x) {
                    let i = choose|i: int| 0 <= i < list.len() && list[i] == x;
                    assert(r[i] == x);
                }
                if x == item {
                    assert(r[list.len() as int] == x);
                }
            }
        }
    }
    if !list.contains(item) {
        assert(r[list.len() as int] == item);
    }
}

/// Inserting many keeps a list free of repetitions and adds exactly the items.
pub proof fn lemma_inserted_all(list: Seq<Seq<char>>, items: Seq<Seq<char>>)
    requires
        list.no_duplicates(),
    ensures
        inserted_all(list, items).no_duplicates(),
        inserted_all(list, items).to_set() == list.to_set().union(items.to_set()),
    decreases items.len(),
{
    if items.len() > 0 {
        let front = items.drop_last();
        lemma_inserted_all(list, front);
        lemma_inserted(inserted_all(list, front), items.last());
        assert(items.to_set() =~= front.to_set().insert(items.last())) by {
            assert forall|x: Seq<char>| items.to_set().contains(x) <==> front.to_set().insert(
                items.last(),
            ).contains(x) by {
                if items.contains(x) {
                    let i = choose|i: int| 0 <= i < items.len() && items[i] == x;
                    if i < front.len() {
                        assert(front[i] == x);
                    }
                }
            }
        }
    }
}

/// A least occurrence is the one that `first_occurrence` names.
pub proof fn lemma_first_occurrence(s: Seq<char>, pat: Seq<char>, i: int)
    requires
        first_occurrence_at(s, pat, i),
    ensures
        occurs(s, pat),
        first_occurrence(s, pat) == i,
{
}

/// A least index from `from` on is the one that `next_index` names.
pub proof fn lemma_next_index(s: Seq<char>, c: char, from: int, i: int)
    requires
        next_index_at(s, c, from, i),
    ensures
        has_from(s, c, from),
        next_index(s, c, from) == i,
{
}

/// Where `pat` stands in `s`, `first_occurrence` names its least occurrence.
pub proof fn lemma_first_occurrence_exists(s: Seq<char>, pat: Seq<char>)
    requires
        occurs(s, pat),
    ensures
        first_occurrence_at(s, pat, first_occurrence(s, pat)),
{
    let i = choose|i: int| occurs_at(s, pat, i);
    lemma_least_occurrence(s, pat, i);
}

proof fn lemma_least_occurrence(s: Seq<char>, pat: Seq<char>, i: int)
    requires
        occurs_at(s, pat, i),
    ensures
        exists|k: int| first_occurrence_at(s, pat, k),
    decreases i,
{
    if forall|j: int| 0 <= j < i ==> !occurs_at(s, pat, j) {
        assert(first_occurrence_at(s, pat, i));
    } else {
        let j = choose|j: int| 0 <= j < i && occurs_at(s, pat, j);
        lemma_least_occurrence(s, pat, j);
    }
}

/// Where `s` holds `c` from `from` on, `next_index` names the least such index.
pub proof fn lemma_next_index_exists(s: Seq<char>, c: char, from: int)
    requires
        has_from(s, c, from),
    ensures
        next_index_at(s, c, from, next_index(s, c, from)),
{
    let i = choose|i: int| 0 <= from <= i < s.len() && s[i] == c;
    lemma_least_index(s, c, from, i);
}

proof fn lemma_least_index(s: Seq<char>, c: char, from: int, i: int)
    requires
        0 <= from <= i < s.len(),
        s[i] == c,
    ensures
        exists|k: int| next_index_at(s, c, from, k),
    decreases i - from,
{
    if forall|j: int| from <= j < i ==> s[j] != c {
        assert(next_index_at(s, c, from, i));
    } else {
        let j = choose|j: int| from <= j < i && s[j] == c;
        lemma_least_index(s, c, from, j);
    }
}

/// Where `s` holds `c`, `last_index` names the greatest index at which it does.
pub proof fn lemma_last_index_exists(s: Seq<char>, c: char)
    requires
        s.contains(c),
    ensures
        last_index_at(s, c, last_index(s, c)),
{
    let i = choose|i: int| 0 <= i < s.len() && s[i] == c;
    lemma_greatest_index(s, c, i);
}

proof fn lemma_greatest_index(s: Seq<char>, c: char, i: int)
    requires
        0 <= i < s.len(),
        s[i] == c,
    ensures
        exists|k: int| last_index_at(s, c, k),
    decreases s.len() - i,
{
    if forall|j: int| i < j < s.len() ==> s[j] != c {
        assert(last_index_at(s, c, i));
    } else {
        let j = choose|j: int| i < j < s.len() && s[j] == c;
        lemma_greatest_index(s, c, j);
    }
}

/// A greatest index of `c` is the one that `last_index` names.
pub proof fn lemma_last_index(s: Seq<char>, c: char, i: int)
    requires
        last_index_at(s, c, i),
    ensures
        s.contains(c),
        last_index(s, c) == i,
{
}

/// The characters of a string slice.
pub fn chars_of(s: &str) -> (v: Vec<char>)
    ensures
        v@ == s@,
{
    let mut v: Vec<char> = Vec::new();
    for c in it: s.chars()
        invariant
            it.seq() == s@,
            v@ == s@.take(it.index() as int),
    {
        v.push(c);
    }
    v
}

/// Appends the characters `v[from..to]` to `out`.
pub fn push_chars(out: &mut String, v: &Vec<char>, from: usize, to: usize)
    requires
        from <= to <= v.len(),
    ensures
        final(out)@ == old(out)@ + v@.subrange(from as int, to as int),
{
    let mut i: usize = from;
    while i < to
        invariant
            from <= i <= to <= v.len(),
            out@ == old(out)@ + v@.subrange(from as int, i as int),
        decreases to - i,
    {
        out.push(v[i]);
        assert(v@.subrange(from as int, i + 1) == v@.subrange(from as int, i as int).push(
            v@[i as int],
        ));
        i += 1;
    }
}

/// The text `v[from..to]`.
pub fn substring(v: &Vec<char>, from: usize, to: usize) -> (s: String)
    requires
        from <= to <= v.len(),
    ensures
        s@ == v@.subrange(from as int, to as int),
{
    let mut s = String::new();
    push_chars(&mut s, v, from, to);
    s
}

/// Whether `pat` stands in `s` at index `i`.
pub fn matches_at(s: &Vec<char>, pat: &Vec<char>, i: usize) -> (r: bool)
    ensures
        r == occurs_at(s@, pat@, i as int),
{
    if pat.len() > s.len() || i > s.len() - pat.len() {
        return false;
    }
    let mut k: usize = 0;
    while k < pat.len()
        invariant
            k <= pat.len(),
            i + pat.len() <= s.len(),
            forall|j: int| 0 <= j < k ==> s@[i + j] == pat@[j],
        decreases pat.len() - k,
    {
        if s[i + k] != pat[k] {
            return false;
        }
        k += 1;
    }
    assert(s@.subrange(i as int, i + pat.len()) =~= pat@);
    true
}

/// The least index at which `pat` stands in `s`, if it stands there at all.
pub fn find(s: &Vec<char>, pat: &Vec<char>) -> (r: Option<usize>)
    ensures
        match r {
            Some(i) => first_occurrence_at(s@, pat@, i as int),
            None => !occurs(s@, pat@),
        },
{
    if pat.len() > s.len() {
        return None;
    }
    if pat.len() == 0 {
        assert(s@.subrange(0, 0) =~= pat@);
        return Some(0);
    }
    let last: usize = s.len() - pat.len();
    let mut i: usize = 0;
    while i <= last
        invariant
            0 < pat.len() <= s.len(),
            last == s.len() - pat.len(),
            i <= last + 1,
            forall|j: int| 0 <= j < i ==> !occurs_at(s@, pat@, j),
        decreases last + 1 - i,
    {
        if matches_at(s, pat, i) {
            return Some(i);
        }
        i += 1;
    }
    None
}

/// The least index from `from` on at which `s` holds `c`, if there is one.
pub fn find_char_from(s: &Vec<char>, c: char, from: usize) -> (r: Option<usize>)
    ensures
        match r {
            Some(i) => next_index_at(s@, c, from as int, i as int),
            None => !has_from(s@, c, from as int),
        },
{
    let mut i: usize = from;
    while i < s.len()
        invariant
            from <= i,
            forall|j: int| from <= j < i && j < s.len() ==> s@[j] != c,
        decreases s.len() - i,
    {
        if s[i] == c {
            return Some(i);
        }
        i += 1;
    }
    None
}

/// The texts of `parts` in order, with `sep` between each two.
pub fn join(parts: &Vec<String>, sep: char) -> (r: String)
    ensures
        r@ == joined(views(parts@), sep),
{
    let mut r = String::new();
    let mut i: usize = 0;
    while i < parts.len()
        invariant
            i <= parts.len(),
            r@ == joined(views(parts@).take(i as int), sep),
        decreases parts.len() - i,
    {
        if i > 0 {
            r.push(sep);
        }
        r.append(parts[i].as_str());
        proof {
            let all = views(parts@);
            assert(all.take(i + 1).drop_last() =~= all.take(i as int));
        }
        i += 1;
    }
    assert(views(parts@).take(parts@.len() as int) =~= views(parts@));
    r
}

/// `s` without the occurrences of `pat`.
pub fn remove_all(s: &Vec<char>, pat: &Vec<char>) -> (r: String)
    ensures
        r@ == without(s@, pat@),
{
    let mut r = String::new();
    if pat.len() == 0 {
        push_chars(&mut r, s, 0, s.len());
        return r;
    }
    let mut i: usize = 0;
    assert(s@.skip(0) =~= s@);
    while i < s.len()
        invariant
            i <= s.len(),
            pat.len() > 0,
            r@ + without(s@.skip(i as int), pat@) == without(s@, pat@),
        decreases s.len() - i,
    {
        let ghost rest = s@.skip(i as int);
        if matches_at(s, pat, i) {
            proof {
                assert(rest.skip(pat@.len() as int) =~= s@.skip(i + pat@.len()));
            }
            i += pat.len();
        } else {
            r.push(s[i]);
            proof {
                if rest.len() >= pat@.len() {
                    assert(rest.take(pat@.len() as int) =~= s@.subrange(
                        i as int,
                        i + pat@.len(),
                    ));
                    assert(rest.drop_first() =~= s@.skip(i + 1));
                    assert(r@ + without(s@.skip(i + 1), pat@) =~= r@.drop_last() + (seq![rest[0]]
                        + without(rest.drop_first(), pat@)));
                }
            }
            i += 1;
        }
    }
    r
}

/// The first `n` characters of `s`, or all of it where it is shorter.
pub fn truncate(s: &Vec<char>, n: usize) -> (r: String)
    ensures
        r@ == truncated(s@, n as nat),
{
    if s.len() <= n {
        let r = substring(s, 0, s.len());
        r
    } else {
        let r = substring(s, 0, n);
        r
    }
}

/// Whether two string slices are the same text.
pub fn same(a: &str, b: &str) -> (r: bool)
    ensures
        r == (a@ == b@),
{
    let x = String::from_str(a);
    let y = String::from_str(b);
    x == y
}

/// Whether `list` holds the text `item`.
pub fn holds(list: &Vec<String>, item: &String) -> (r: bool)
    ensures
        r == views(list@).contains(item@),
{
    let mut i: usize = 0;
    while i < list.len()
        invariant
            i <= list.len(),
            forall|j: int| 0 <= j < i ==> views(list@)[j] != item@,
        decreases list.len() - i,
    {
        if list[i] == *item {
            assert(views(list@)[i as int] == item@);
            return true;
        }
        i += 1;
    }
    false
}

/// Puts `item` at the end of `list`, unless the list holds it already.
pub fn insert(list: &mut Vec<String>, item: String)
    ensures
        views(final(list)@) == inserted(views(old(list)@), item@),
{
    if !holds(list, &item) {
        list.push(item);
    }
}

/// The greatest index at which `s` holds `c`, if it holds `c` at all.
pub fn rfind_char(s: &Vec<char>, c: char) -> (r: Option<usize>)
    ensures
        match r {
            Some(i) => last_index_at(s@, c, i as int),
            None => !s@.contains(c),
        },
{
    let mut i: usize = s.len();
    while i > 0
        invariant
            i <= s.len(),
            forall|j: int| i <= j < s.len() ==> s@[j] != c,
        decreases i,
    {
        i -= 1;
        if s[i] == c {
            return Some(i);
        }
    }
    None
}

/// Whether `s` ends with `pat`.
pub fn ends_with(s: &Vec<char>, pat: &Vec<char>) -> (r: bool)
    ensures
        r == pat@.is_suffix_of(s@),
{
    if pat.len() > s.len() {
        return false;
    }
    let r = matches_at(s, pat, s.len() - pat.len());
    proof {
        assert(s@.subrange(s@.len() - pat@.len(), s@.len() as int) =~= s@.skip(
            s@.len() - pat@.len(),
        ));
    }
    r
}

/// `s` with every `from` replaced by `to`, as a string.
pub fn replace_char(s: &Vec<char>, from: char, to: char) -> (r: String)
    ensures
        r@ == replaced(s@, from, to),
{
    let mut r = String::new();
    let mut i: usize = 0;
    while i < s.len()
        invariant
            i <= s.len(),
            r@ == replaced(s@.take(i as int), from, to),
        decreases s.len() - i,
    {
        let c = s[i];
        if c == from {
            r.push(to);
        } else {
            r.push(c);
        }
        assert(replaced(s@.take(i + 1), from, to) =~= replaced(s@.take(i as int), from, to).push(
            if c == from {
                to
            } else {
                c
            },
        ));
        i += 1;
    }
    r
}

} // verus!
