//! What the text functions keep of a text.

use crate::text;
use vstd::prelude::*;

verus! {

/// Parts with a separator between each two of them.
pub open spec fn rejoined(parts: Seq<Seq<char>>, sep: char) -> Seq<char>
    decreases parts.len(),
{
    if parts.len() == 0 {
        Seq::empty()
    } else if parts.len() == 1 {
        parts[0]
    } else {
        rejoined(parts.drop_last(), sep).push(sep) + parts.last()
    }
}

/// The parts of a text hold no separator, and with separators between them they are the text.
pub proof fn parts_make_the_text(s: Seq<char>, sep: char)
    ensures
        text::split(s, sep).len() >= 1,
        rejoined(text::split(s, sep), sep) == s,
        forall|i: int|
            0 <= i < text::split(s, sep).len() ==> !(#[trigger] text::split(s, sep)[i]).contains(
                sep,
            ),
    decreases s.len(),
{
    let parts = text::split(s, sep);
    if s.len() == 0 {
        assert(rejoined(parts, sep) =~= s);
    } else {
        let front = s.drop_last();
        let c = s.last();
        parts_make_the_text(front, sep);
        let before = text::split(front, sep);
        if c == sep {
            assert(parts.drop_last() =~= before);
            assert(rejoined(parts, sep) =~= s);
        } else {
            let last = before.last().push(c);
            assert(parts.last() == last);
            assert(parts.drop_last() =~= before.drop_last());
            assert(rejoined(parts, sep) =~= rejoined(before, sep).push(c));
            assert(front.push(c) =~= s);
            assert(!before[before.len() - 1].contains(sep));
            assert forall|k: int| 0 <= k < last.len() implies #[trigger] last[k] != sep by {
                if k < before.last().len() {
                    assert(before.last()[k] != sep);
                }
            }
        }
        assert forall|i: int| 0 <= i < parts.len() implies !(#[trigger] parts[i]).contains(
            sep,
        ) by {
            if i < parts.len() - 1 {
                assert(parts[i] == before[i]);
            }
        }
    }
}

/// Trimming takes white space off both ends and nothing else: what is left stands in the text
/// with only white space before and after it, and neither begins nor ends with any.
pub proof fn trimming_takes_only_space(s: Seq<char>) -> (from: int)
    ensures
        ({
            let t = text::trim(s);
            &&& 0 <= from && from + t.len() <= s.len()
            &&& t == s.subrange(from, from + t.len())
            &&& forall|i: int|
                0 <= i < from || from + t.len() <= i < s.len() ==> text::is_space(#[trigger] s[i])
            &&& t.len() > 0 ==> !text::is_space(t[0]) && !text::is_space(t.last())
        }),
{
    let a = text::trim_start(s);
    let from = start_taken(s);
    let t = text::trim(s);
    end_taken(a);
    assert(t =~= s.subrange(from, from + t.len()));
    assert forall|i: int| 0 <= i < from || from + t.len() <= i < s.len() implies text::is_space(
        #[trigger] s[i],
    ) by {
        if i >= from {
            assert(a[i - from] == s[i]);
        }
    }
    from
}

proof fn start_taken(s: Seq<char>) -> (from: int)
    ensures
        0 <= from <= s.len(),
        text::trim_start(s) == s.subrange(from, s.len() as int),
        forall|i: int| 0 <= i < from ==> text::is_space(#[trigger] s[i]),
        from < s.len() ==> !text::is_space(s[from]),
    decreases s.len(),
{
    if s.len() > 0 && text::is_space(s[0]) {
        let rest = s.drop_first();
        let k = start_taken(rest);
        assert(text::trim_start(s) =~= s.subrange(k + 1, s.len() as int));
        assert forall|i: int| 0 <= i < k + 1 implies text::is_space(#[trigger] s[i]) by {
            if i > 0 {
                assert(rest[i - 1] == s[i]);
            }
        }
        k + 1
    } else {
        assert(s =~= s.subrange(0, s.len() as int));
        0
    }
}

proof fn end_taken(s: Seq<char>)
    ensures
        ({
            let t = text::trim_end(s);
            &&& t.len() <= s.len()
            &&& t == s.take(t.len() as int)
            &&& forall|i: int| t.len() <= i < s.len() ==> text::is_space(#[trigger] s[i])
            &&& t.len() > 0 ==> !text::is_space(t.last())
        }),
    decreases s.len(),
{
    if s.len() > 0 && text::is_space(s.last()) {
        let front = s.drop_last();
        end_taken(front);
        let t = text::trim_end(s);
        assert(t =~= s.take(t.len() as int));
        assert forall|i: int| t.len() <= i < s.len() implies text::is_space(#[trigger] s[i]) by {
            if i < front.len() {
                assert(front[i] == s[i]);
            }
        }
    } else {
        assert(s =~= s.take(s.len() as int));
    }
}

/// The number that decimal digits write.
pub open spec fn value(s: Seq<char>) -> int
    decreases s.len(),
{
    if s.len() == 0 {
        0
    } else {
        value(s.drop_last()) * 10 + (s.last() as int - '0' as int)
    }
}

/// The decimal digits of a number write that number, and do not begin with a zero unless they
/// are that one digit.
pub proof fn digits_write_the_number(n: nat)
    ensures
        value(text::decimal(n)) == n,
        text::decimal(n).len() > 0,
        forall|i: int|
            0 <= i < text::decimal(n).len() ==> '0' <= #[trigger] text::decimal(n)[i] <= '9',
        n > 0 ==> text::decimal(n)[0] != '0',
    decreases n,
{
    if n < 10 {
        let d = text::decimal(n);
        assert(d.drop_last() =~= Seq::empty());
        assert(value(d.drop_last()) == 0);
    } else {
        digits_write_the_number(n / 10);
        let d = text::decimal(n);
        assert(d.drop_last() =~= text::decimal(n / 10));
    }
}

/// Lowering changes the capital letters of the alphabet to the small ones and keeps the rest.
pub proof fn lowering_keeps_all_but_capitals(s: Seq<char>, i: int)
    requires
        0 <= i < s.len(),
    ensures
        text::lowered(s).len() == s.len(),
        'A' as u32 <= s[i] as u32 <= 'Z' as u32 ==> text::lowered(s)[i] as u32 - 'a' as u32
            == s[i] as u32 - 'A' as u32,
        !('A' as u32 <= s[i] as u32 <= 'Z' as u32) ==> text::lowered(s)[i] == s[i],
{
}

/// A line holds no line end, and the lines of a text with no carriage return in it are its parts
/// between line ends, less an empty one at the end.
pub proof fn lines_are_the_parts(s: Seq<char>)
    requires
        !s.contains('\r'),
    ensures
        ({
            let l = text::lines(s);
            &&& forall|i: int| 0 <= i < l.len() ==> !(#[trigger] l[i]).contains('\n')
            &&& s == rejoined(l, '\n') || s == rejoined(l.push(Seq::empty()), '\n')
        }),
{
    parts_make_the_text(s, '\n');
    let p = text::split(s, '\n');
    let l = text::lines(s);
    assert forall|i: int| 0 <= i < p.len() implies !(#[trigger] p[i]).contains('\r') by {
        part_within(p, '\n', i, '\r');
    }
    assert forall|i: int| 0 <= i < p.len() - 1 implies #[trigger] text::strip_cr(p[i]) == p[i] by {
        assert(!p[i].contains('\r'));
    }
    if p.last().len() == 0 {
        assert(l.push(Seq::empty()) =~= p);
    } else {
        assert(l =~= p);
    }
}

proof fn part_within(parts: Seq<Seq<char>>, sep: char, i: int, c: char)
    requires
        0 <= i < parts.len(),
        !rejoined(parts, sep).contains(c),
    ensures
        !parts[i].contains(c),
    decreases parts.len(),
{
    let all = rejoined(parts, sep);
    if parts.len() > 1 {
        let before = rejoined(parts.drop_last(), sep).push(sep);
        if i == parts.len() - 1 {
            assert forall|k: int| 0 <= k < parts[i].len() implies #[trigger] parts[i][k] != c by {
                assert(all[before.len() + k] == parts[i][k]);
            }
        } else {
            assert forall|k: int| 0 <= k < before.len() - 1 implies #[trigger] rejoined(
                parts.drop_last(),
                sep,
            )[k] != c by {
                assert(all[k] == rejoined(parts.drop_last(), sep)[k]);
            }
            part_within(parts.drop_last(), sep, i, c);
        }
    }
}

/// Trimming does not see white space at the ends of a text.
pub proof fn trimming_ignores_outer_space(s: Seq<char>, c: char)
    requires
        text::is_space(c),
    ensures
        text::trim(seq![c] + s) == text::trim(s),
        text::trim(s.push(c)) == text::trim(s),
{
    let front = seq![c] + s;
    assert(front.drop_first() =~= s);
    start_pushed(s, c);
    let a = text::trim_start(s);
    assert(a.push(c).drop_last() =~= a);
}

proof fn start_pushed(s: Seq<char>, c: char)
    requires
        text::is_space(c),
    ensures
        text::trim_start(s.push(c)) == text::trim_start(s).push(c) || (text::trim_start(
            s.push(c),
        ).len() == 0 && text::trim_start(s).len() == 0),
    decreases s.len(),
{
    reveal_with_fuel(text::trim_start, 2);
    if s.len() == 0 {
        assert(s.push(c).drop_first() =~= Seq::empty());
    } else if text::is_space(s[0]) {
        assert(s.push(c).drop_first() =~= s.drop_first().push(c));
        start_pushed(s.drop_first(), c);
    }
}

/// Trimming and lowering may be done in either order.
pub proof fn trimming_and_lowering_commute(s: Seq<char>)
    ensures
        text::trim(text::lowered(s)) == text::lowered(text::trim(s)),
{
    start_lowered(s);
    end_lowered(text::trim_start(s));
}

proof fn start_lowered(s: Seq<char>)
    ensures
        text::trim_start(text::lowered(s)) == text::lowered(text::trim_start(s)),
    decreases s.len(),
{
    if s.len() > 0 && text::is_space(s[0]) {
        assert(text::lowered(s).drop_first() =~= text::lowered(s.drop_first()));
        start_lowered(s.drop_first());
    }
}

proof fn end_lowered(s: Seq<char>)
    ensures
        text::trim_end(text::lowered(s)) == text::lowered(text::trim_end(s)),
    decreases s.len(),
{
    if s.len() > 0 && text::is_space(s.last()) {
        assert(text::lowered(s).drop_last() =~= text::lowered(s.drop_last()));
        end_lowered(s.drop_last());
    }
}

} // verus!
