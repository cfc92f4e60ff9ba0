//! The transformed name of an entry: substring removal, then an optional
//! split on a separator and a rejoin of chosen fields.

use vstd::prelude::*;
use crate::config::{Config, strings_view};
use crate::text::same_text;

verus! {

/// `s` with every occurrence of `p` removed, scanning left to right without
/// overlap (`str::replace(p, "")`); an empty `p` leaves `s` as it is.
pub open spec fn remove_all(s: Seq<char>, p: Seq<char>) -> Seq<char>
    decreases s.len(),
{
    if p.len() == 0 || s.len() < p.len() {
        s
    } else if s.subrange(0, p.len() as int) == p {
        remove_all(s.skip(p.len() as int), p)
    } else {
        seq![s[0]] + remove_all(s.drop_first(), p)
    }
}

/// `c` put in front of the first field.
pub open spec fn prepend_first(c: Seq<char>, fields: Seq<Seq<char>>) -> Seq<Seq<char>> {
    fields.update(0, c + fields[0])
}

/// The fields of `s` between occurrences of a non-empty `p`, leftmost first.
pub open spec fn split_nonempty(s: Seq<char>, p: Seq<char>) -> Seq<Seq<char>>
    decreases s.len(),
{
    if p.len() == 0 || s.len() < p.len() {
        seq![s]
    } else if s.subrange(0, p.len() as int) == p {
        seq![Seq::<char>::empty()] + split_nonempty(s.skip(p.len() as int), p)
    } else {
        prepend_first(seq![s[0]], split_nonempty(s.drop_first(), p))
    }
}

/// `str::split(p)`: with an empty `p`, an empty field, each character, and an
/// empty field.
pub open spec fn split_spec(s: Seq<char>, p: Seq<char>) -> Seq<Seq<char>> {
    if p.len() == 0 {
        seq![Seq::<char>::empty()] + Seq::new(s.len(), |i: int| seq![s[i]]) + seq![
            Seq::<char>::empty(),
        ]
    } else {
        split_nonempty(s, p)
    }
}

/// The fields at the listed positions, in listed order; a position past the
/// end is skipped.
pub open spec fn pick_fields(fields: Seq<Seq<char>>, idx: Seq<usize>) -> Seq<Seq<char>>
    decreases idx.len(),
{
    if idx.len() == 0 {
        Seq::empty()
    } else {
        let rest = pick_fields(fields, idx.drop_last());
        if (idx.last() as int) < fields.len() {
            rest.push(fields[idx.last() as int])
        } else {
            rest
        }
    }
}

/// The parts with `j` between each two.
pub open spec fn join_spec(parts: Seq<Seq<char>>, j: Seq<char>) -> Seq<char>
    decreases parts.len(),
{
    if parts.len() == 0 {
        Seq::empty()
    } else if parts.len() == 1 {
        parts[0]
    } else {
        join_spec(parts.drop_last(), j) + j + parts.last()
    }
}

/// The removal step: each configured substring is removed from the raw name
/// on its own, so the last one in the list decides the outcome.
pub open spec fn removed_name(name: Seq<char>, remove: Seq<Seq<char>>) -> Seq<char> {
    if remove.len() == 0 {
        name
    } else {
        remove_all(name, remove.last())
    }
}

/// The name that date matching sees.
pub open spec fn transformed_name(
    name: Seq<char>,
    remove: Seq<Seq<char>>,
    split: Option<Seq<char>>,
    join: Seq<char>,
    idx: Seq<usize>,
) -> Seq<char> {
    let r = removed_name(name, remove);
    match split {
        None => r,
        Some(sep) => join_spec(pick_fields(split_spec(r, sep), idx), join),
    }
}

pub proof fn lemma_split_nonempty_len(s: Seq<char>, p: Seq<char>)
    ensures
        split_nonempty(s, p).len() >= 1,
    decreases s.len(),
{
    if p.len() == 0 || s.len() < p.len() {
    } else if s.subrange(0, p.len() as int) == p {
        lemma_split_nonempty_len(s.skip(p.len() as int), p);
    } else {
        lemma_split_nonempty_len(s.drop_first(), p);
    }
}

/// `s` with every occurrence of `p` removed.
pub fn remove_substring(s: &str, p: &str) -> (r: String)
    ensures
        r@ == remove_all(s@, p@),
{
    let n = s.unicode_len();
    let m = p.unicode_len();
    if m == 0 {
        return s.to_string();
    }
    let mut out = String::new();
    let mut i: usize = 0;
    assert(s@.skip(0) =~= s@);
    assert(out@ + remove_all(s@, p@) =~= remove_all(s@, p@));
    while i < n
        invariant
            n == s@.len(),
            m == p@.len(),
            m > 0,
            i <= n,
            remove_all(s@, p@) == out@ + remove_all(s@.skip(i as int), p@),
        decreases n - i,
    {
        let ghost t = s@.skip(i as int);
        if n - i < m {
            let tail = s.substring_char(i, n);
            assert(tail@ =~= t);
            out.append(tail);
            assert(s@.skip(n as int) =~= Seq::<char>::empty());
            i = n;
        } else if same_text(s.substring_char(i, i + m), p) {
            assert(t.subrange(0, m as int) =~= s@.subrange(i as int, i + m));
            assert(t.skip(m as int) =~= s@.skip(i + m));
            i = i + m;
        } else {
            assert(t.subrange(0, m as int) =~= s@.subrange(i as int, i + m));
            assert(t.drop_first() =~= s@.skip(i + 1));
            let c = s.substring_char(i, i + 1);
            assert(c@ =~= seq![t[0]]);
            out.append(c);
            i = i + 1;
        }
    }
    assert(s@.skip(n as int) =~= Seq::<char>::empty());
    out
}

/// The fields of `s` between occurrences of `p`.
pub fn split_fields(s: &str, p: &str) -> (r: Vec<String>)
    ensures
        strings_view(r@) == split_spec(s@, p@),
{
    let n = s.unicode_len();
    let m = p.unicode_len();
    let mut fields: Vec<String> = Vec::new();
    if m == 0 {
        let ghost each = Seq::new(s@.len(), |i: int| seq![s@[i]]);
        fields.push(String::new());
        let mut i: usize = 0;
        while i < n
            invariant
                n == s@.len(),
                i <= n,
                each == Seq::new(s@.len(), |i: int| seq![s@[i]]),
                strings_view(fields@) =~= seq![Seq::<char>::empty()] + each.take(i as int),
            decreases n - i,
        {
            let c = s.substring_char(i, i + 1);
            assert(c@ =~= seq![s@[i as int]]);
            let piece = c.to_string();
            assert(strings_view(fields@.push(piece)) =~= strings_view(fields@).push(piece@));
            fields.push(piece);
            assert(each.take(i + 1) =~= each.take(i as int).push(each[i as int]));
            i = i + 1;
        }
        fields.push(String::new());
        assert(each.take(n as int) =~= each);
        assert(strings_view(fields@) =~= split_spec(s@, p@));
        return fields;
    }
    let mut start: usize = 0;
    let mut i: usize = 0;
    proof {
        lemma_split_nonempty_len(s@, p@);
        assert(s@.skip(0) =~= s@);
        let x = split_nonempty(s@, p@);
        assert(Seq::<char>::empty() + x[0] =~= x[0]);
        assert(prepend_first(s@.subrange(0, 0), x) =~= x);
        assert(strings_view(fields@) + x =~= x);
    }
    while m <= n - i
        invariant
            n == s@.len(),
            m == p@.len(),
            m > 0,
            start <= i <= n,
            split_nonempty(s@, p@) == strings_view(fields@) + prepend_first(
                s@.subrange(start as int, i as int),
                split_nonempty(s@.skip(i as int), p@),
            ),
        decreases n - i,
    {
        let ghost t = s@.skip(i as int);
        let ghost cur = s@.subrange(start as int, i as int);
        assert(t.subrange(0, m as int) =~= s@.subrange(i as int, i + m));
        if same_text(s.substring_char(i, i + m), p) {
            let piece = s.substring_char(start, i).to_string();
            proof {
                assert(t.skip(m as int) =~= s@.skip(i + m));
                let x = split_nonempty(s@.skip(i + m), p@);
                lemma_split_nonempty_len(s@.skip(i + m), p@);
                assert(Seq::<char>::empty() + x[0] =~= x[0]);
                assert(prepend_first(Seq::<char>::empty(), x) =~= x);
                assert(prepend_first(cur, seq![Seq::<char>::empty()] + x) =~= seq![cur] + x);
                assert(s@.subrange(i + m, i + m) =~= Seq::<char>::empty());
                assert(strings_view(fields@.push(piece)) =~= strings_view(fields@).push(cur));
            }
            fields.push(piece);
            i = i + m;
            start = i;
        } else {
            proof {
                assert(t.drop_first() =~= s@.skip(i + 1));
                let y = split_nonempty(s@.skip(i + 1), p@);
                lemma_split_nonempty_len(s@.skip(i + 1), p@);
                assert(cur + (seq![t[0]] + y[0]) =~= s@.subrange(start as int, i + 1) + y[0]);
                assert(prepend_first(cur, prepend_first(seq![t[0]], y)) =~= prepend_first(
                    s@.subrange(start as int, i + 1),
                    y,
                ));
            }
            i = i + 1;
        }
    }
    let last = s.substring_char(start, n).to_string();
    proof {
        let t = s@.skip(i as int);
        assert(s@.subrange(start as int, i as int) + t =~= s@.subrange(start as int, n as int));
        assert(prepend_first(s@.subrange(start as int, i as int), seq![t]) =~= seq![last@]);
        assert(strings_view(fields@.push(last)) =~= strings_view(fields@).push(last@));
    }
    fields.push(last);
    assert(strings_view(fields@) =~= split_spec(s@, p@));
    fields
}

/// The fields at the listed positions, in listed order, skipping positions
/// past the end.
pub fn pick(fields: &Vec<String>, idx: &Vec<usize>) -> (r: Vec<String>)
    ensures
        strings_view(r@) == pick_fields(strings_view(fields@), idx@),
{
    let mut out: Vec<String> = Vec::new();
    let mut k: usize = 0;
    assert(idx@.take(0) =~= Seq::<usize>::empty());
    assert(strings_view(out@) =~= Seq::<Seq<char>>::empty());
    while k < idx.len()
        invariant
            k <= idx@.len(),
            strings_view(out@) == pick_fields(strings_view(fields@), idx@.take(k as int)),
        decreases idx@.len() - k,
    {
        let j = idx[k];
        assert(idx@.take(k + 1).drop_last() =~= idx@.take(k as int));
        if j < fields.len() {
            let f = fields[j].clone();
            assert(strings_view(out@.push(f)) =~= strings_view(out@).push(f@));
            out.push(f);
        }
        k = k + 1;
    }
    assert(idx@.take(idx@.len() as int) =~= idx@);
    out
}

/// The parts with `sep` between each two.
pub fn join_parts(parts: &Vec<String>, sep: &str) -> (r: String)
    ensures
        r@ == join_spec(strings_view(parts@), sep@),
{
    let mut out = String::new();
    let mut k: usize = 0;
    let ghost v = strings_view(parts@);
    while k < parts.len()
        invariant
            k <= parts@.len(),
            v == strings_view(parts@),
            out@ == join_spec(v.take(k as int), sep@),
        decreases parts@.len() - k,
    {
        assert(v.take(k + 1).drop_last() =~= v.take(k as int));
        if k > 0 {
            out.append(sep);
        } else {
            assert(out@ + v[0] =~= v[0]);
        }
        out.append(parts[k].as_str());
        k = k + 1;
    }
    assert(v.take(parts@.len() as int) =~= v);
    out
}

impl Config {
    /// The name that date matching sees for the raw entry name `name`.
    pub fn format_name(&self, name: &str) -> (r: String)
        ensures
            r@ == transformed_name(
                name@,
                self@.remove,
                self@.split_string,
                self@.split_join,
                self@.split_indicies,
            ),
    {
        let mut formatted = name.to_string();
        let mut k: usize = 0;
        while k < self.remove.len()
            invariant
                k <= self.remove@.len(),
                formatted@ == (if k == 0 {
                    name@
                } else {
                    remove_all(name@, self.remove@[k - 1]@)
                }),
            decreases self.remove@.len() - k,
        {
            formatted = remove_substring(name, self.remove[k].as_str());
            k = k + 1;
        }
        match &self.split_string {
            Some(sep) => {
                let fields = split_fields(formatted.as_str(), sep.as_str());
                let chosen = pick(&fields, &self.split_indicies);
                join_parts(&chosen, self.split_join.as_str())
            },
            None => formatted,
        }
    }
}

} // verus!
