//! Text scanning: the characters of a text, the fields between its commas,
//! and a field without the white space around it.
use vstd::prelude::*;
use vstd::std_specs::iter::IteratorSpec;

verus! {

/// Whether `c` is white space: a character with the Unicode property
/// `White_Space`.
pub open spec fn is_space(c: char) -> bool {
    let code = c as u32;
    ||| 0x09 <= code <= 0x0D
    ||| code == 0x20
    ||| code == 0x85
    ||| code == 0xA0
    ||| code == 0x1680
    ||| 0x2000 <= code <= 0x200A
    ||| code == 0x2028
    ||| code == 0x2029
    ||| code == 0x202F
    ||| code == 0x205F
    ||| code == 0x3000
}

/// Tells whether `c` is white space.
pub fn is_whitespace(c: char) -> (space: bool)
    ensures
        space == is_space(c),
{
    let code = c as u32;
    (0x09 <= code && code <= 0x0D) || code == 0x20 || code == 0x85 || code == 0xA0 || code
        == 0x1680 || (0x2000 <= code && code <= 0x200A) || code == 0x2028 || code == 0x2029
        || code == 0x202F || code == 0x205F || code == 0x3000
}

/// The text `s` without the white space at its start.
pub open spec fn trim_start(s: Seq<char>) -> Seq<char>
    decreases s.len(),
{
    if s.len() > 0 && is_space(s[0]) {
        trim_start(s.drop_first())
    } else {
        s
    }
}

/// The text `s` without the white space at its end.
pub open spec fn trim_end(s: Seq<char>) -> Seq<char>
    decreases s.len(),
{
    if s.len() > 0 && is_space(s.last()) {
        trim_end(s.drop_last())
    } else {
        s
    }
}

/// The text `s` without the white space at either end. White space inside it
/// stays.
pub open spec fn trim(s: Seq<char>) -> Seq<char> {
    trim_end(trim_start(s))
}

/// The number of characters of `s` before its first comma: all of them where
/// it has none.
pub open spec fn first_comma(s: Seq<char>) -> nat
    decreases s.len(),
{
    if s.len() == 0 || s[0] == ',' {
        0
    } else {
        1 + first_comma(s.drop_first())
    }
}

/// The fields of `s`: the texts before, between and after its commas, in
/// order. A text with `n` commas has `n + 1` fields, some of them perhaps
/// empty.
pub open spec fn split_commas(s: Seq<char>) -> Seq<Seq<char>>
    decreases s.len(),
{
    let n = first_comma(s);
    if n >= s.len() {
        seq![s]
    } else {
        seq![s.take(n as int)] + split_commas(s.skip(n as int + 1))
    }
}

/// Whether `s` holds no comma.
pub open spec fn comma_free(s: Seq<char>) -> bool {
    forall|i: int| 0 <= i < s.len() ==> #[trigger] s[i] != ','
}

/// The first comma of `s` stands at `n` where no comma comes before `n` and
/// one stands there, or `s` ends there.
pub proof fn lemma_first_comma_at(s: Seq<char>, n: int)
    requires
        0 <= n <= s.len(),
        comma_free(s.take(n)),
        n < s.len() ==> s[n] == ',',
    ensures
        first_comma(s) == n,
    decreases n,
{
    if n > 0 {
        assert(s.take(n)[0] == s[0]);
        let tail = s.drop_first();
        assert forall|i: int| 0 <= i < n - 1 implies #[trigger] tail.take(n - 1)[i] != ',' by {
            assert(tail.take(n - 1)[i] == s.take(n)[i + 1]);
        }
        lemma_first_comma_at(tail, n - 1);
    }
}

/// A text without commas is its own single field.
pub proof fn lemma_split_comma_free(s: Seq<char>)
    requires
        comma_free(s),
    ensures
        split_commas(s) == seq![s],
{
    assert(s.take(s.len() as int) =~= s);
    lemma_first_comma_at(s, s.len() as int);
}

/// The fields of a comma-free text, a comma and a rest are that text and then
/// the fields of the rest.
pub proof fn lemma_split_first_field(head: Seq<char>, rest: Seq<char>)
    requires
        comma_free(head),
    ensures
        split_commas(head + seq![','] + rest) == seq![head] + split_commas(rest),
{
    let s = head + seq![','] + rest;
    let n = head.len() as int;
    assert(s.take(n) =~= head);
    assert(s.skip(n + 1) =~= rest);
    lemma_first_comma_at(s, n);
}

/// The characters of `text`, in order.
pub fn chars_of(text: &str) -> (chars: Vec<char>)
    ensures
        chars@ == text@,
{
    broadcast use vstd::string::group_string_axioms;

    let mut source = text.chars();
    let mut chars: Vec<char> = Vec::new();
    let ghost all = text@;
    loop
        invariant
            source.decrease() is Some,
            all == text@,
            chars@.len() <= all.len(),
            source.remaining() == all.skip(chars@.len() as int),
            chars@ == all.take(chars@.len() as int),
        decreases source.decrease()->0,
    {
        let ghost done = chars@.len() as int;
        match source.next() {
            Some(c) => {
                chars.push(c);
                proof {
                    assert(c == all[done]);
                    assert(source.remaining() =~= all.skip(done + 1));
                    assert(chars@ =~= all.take(done + 1));
                }
            },
            None => {
                proof {
                    assert(all.take(done) =~= all);
                }
                return chars;
            },
        }
    }
}

/// Finds the end of the field of `text` that starts at `from`: the place of
/// the next comma, or the end of the text.
pub fn field_end(text: &Vec<char>, from: usize) -> (end: usize)
    requires
        from <= text@.len(),
    ensures
        from <= end <= text@.len(),
        end - from == first_comma(text@.skip(from as int)),
{
    let mut end = from;
    while end < text.len() && text[end] != ','
        invariant
            from <= end <= text@.len(),
            forall|i: int| from <= i < end ==> text@[i] != ',',
        decreases text@.len() - end,
    {
        end = end + 1;
    }
    proof {
        let tail = text@.skip(from as int);
        assert forall|i: int| 0 <= i < end - from implies #[trigger] tail.take(end - from)[i]
            != ',' by {
            assert(tail.take(end - from)[i] == text@[from + i]);
        }
        lemma_first_comma_at(tail, end - from);
    }
    end
}

/// Finds the fields of `text`: for each field, in order, the place where it
/// starts and the place where it ends.
pub fn split_fields(text: &Vec<char>) -> (bounds: Vec<(usize, usize)>)
    ensures
        bounds@.len() == split_commas(text@).len(),
        forall|i: int|
            0 <= i < bounds@.len() ==> {
                &&& (#[trigger] bounds@[i]).0 <= bounds@[i].1 <= text@.len()
                &&& text@.subrange(bounds@[i].0 as int, bounds@[i].1 as int) == split_commas(
                    text@,
                )[i]
            },
{
    let mut bounds: Vec<(usize, usize)> = Vec::new();
    let mut start: usize = 0;
    let ghost mut found: Seq<Seq<char>> = Seq::empty();
    proof {
        assert(text@.skip(0) =~= text@);
    }
    loop
        invariant
            start <= text@.len(),
            split_commas(text@) == found + split_commas(text@.skip(start as int)),
            bounds@.len() == found.len(),
            forall|i: int|
                0 <= i < bounds@.len() ==> {
                    &&& (#[trigger] bounds@[i]).0 <= bounds@[i].1 <= text@.len()
                    &&& text@.subrange(bounds@[i].0 as int, bounds@[i].1 as int) == found[i]
                },
        decreases text@.len() - start,
    {
        let end = field_end(text, start);
        let ghost tail = text@.skip(start as int);
        let ghost field = text@.subrange(start as int, end as int);
        bounds.push((start, end));
        proof {
            assert(tail.take(end - start) =~= field);
        }
        if end == text.len() {
            proof {
                assert(tail =~= field);
                found = found.push(field);
                assert(split_commas(text@) =~= found);
            }
            return bounds;
        }
        proof {
            assert(tail.skip(end - start + 1) =~= text@.skip(end + 1));
            assert(split_commas(text@) =~= found.push(field) + split_commas(text@.skip(end + 1)));
            found = found.push(field);
        }
        start = end + 1;
    }
}

/// Narrows the part of `text` from `from` up to `to` to what is left of it
/// without the white space at either end.
pub fn trim_bounds(text: &Vec<char>, from: usize, to: usize) -> (bounds: (usize, usize))
    requires
        from <= to <= text@.len(),
    ensures
        from <= bounds.0 <= bounds.1 <= to,
        text@.subrange(bounds.0 as int, bounds.1 as int) == trim(
            text@.subrange(from as int, to as int),
        ),
{
    let mut lo = from;
    while lo < to && is_whitespace(text[lo])
        invariant
            from <= lo <= to <= text@.len(),
            trim_start(text@.subrange(from as int, to as int)) == trim_start(
                text@.subrange(lo as int, to as int),
            ),
        decreases to - lo,
    {
        proof {
            let part = text@.subrange(lo as int, to as int);
            assert(part[0] == text@[lo as int]);
            assert(part.drop_first() =~= text@.subrange(lo + 1, to as int));
        }
        lo = lo + 1;
    }
    proof {
        let part = text@.subrange(lo as int, to as int);
        if lo < to {
            assert(part[0] == text@[lo as int]);
        }
        assert(trim_start(part) == part);
    }
    let mut hi = to;
    while lo < hi && is_whitespace(text[hi - 1])
        invariant
            lo <= hi <= to <= text@.len(),
            trim_end(text@.subrange(lo as int, to as int)) == trim_end(
                text@.subrange(lo as int, hi as int),
            ),
        decreases hi - lo,
    {
        proof {
            let part = text@.subrange(lo as int, hi as int);
            assert(part.last() == text@[hi - 1]);
            assert(part.drop_last() =~= text@.subrange(lo as int, hi - 1));
        }
        hi = hi - 1;
    }
    proof {
        let part = text@.subrange(lo as int, hi as int);
        if lo < hi {
            assert(part.last() == text@[hi - 1]);
        }
        assert(trim_end(part) == part);
    }
    (lo, hi)
}

} // verus!
