use vstd::prelude::*;

verus! {

/// ASCII whitespace: tab, line feed, vertical tab, form feed, carriage
/// return and space.
pub open spec fn is_space(b: u8) -> bool {
    (9 <= b <= 13) || b == 32
}

/// An ASCII decimal digit.
pub open spec fn is_digit(b: u8) -> bool {
    48 <= b <= 57
}

/// The whitespace-separated decimal numbers of `text`, with whether its
/// last byte is a digit (a number is still being read); `None` where a byte
/// is neither whitespace nor a digit, or where a number exceeds
/// `usize::MAX`.
pub open spec fn numbers_in(text: Seq<u8>) -> Option<(Seq<usize>, bool)>
    decreases text.len(),
{
    if text.len() == 0 {
        Some((Seq::empty(), false))
    } else {
        match numbers_in(text.drop_last()) {
            None => None,
            Some((vals, reading)) => {
                let b = text.last();
                if is_space(b) {
                    Some((vals, false))
                } else if !is_digit(b) {
                    None
                } else if reading {
                    let v = vals.last() * 10 + (b - 48);
                    if v > usize::MAX {
                        None
                    } else {
                        Some((vals.drop_last().push(v as usize), true))
                    }
                } else {
                    Some((vals.push((b - 48) as usize), true))
                }
            },
        }
    }
}

/// The numbers of `text`, or `None` where it holds anything else.
pub open spec fn numbers(text: Seq<u8>) -> Option<Seq<usize>> {
    match numbers_in(text) {
        Some((vals, _)) => Some(vals),
        None => None,
    }
}

/// Consecutive numbers taken two at a time; an odd last one is left out.
pub open spec fn pairs_of(vals: Seq<usize>) -> Seq<(usize, usize)> {
    Seq::new(vals.len() / 2, |i: int| (vals[2 * i], vals[2 * i + 1]))
}

/// The lines of `text` so far, with whether the last of them is still open
/// (not yet ended by a line feed).
pub open spec fn lines_in(text: Seq<u8>) -> (Seq<Seq<u8>>, bool)
    decreases text.len(),
{
    if text.len() == 0 {
        (Seq::empty(), false)
    } else {
        let (lines, open) = lines_in(text.drop_last());
        let b = text.last();
        if b == 10 {
            if !open {
                (lines.push(Seq::empty()), false)
            } else if lines.last().len() > 0 && lines.last().last() == 13 {
                (lines.drop_last().push(lines.last().drop_last()), false)
            } else {
                (lines, false)
            }
        } else if open {
            (lines.drop_last().push(lines.last().push(b)), true)
        } else {
            (lines.push(seq![b]), true)
        }
    }
}

/// The lines of `text`: split at each line feed, with a carriage return
/// just before a line feed taken out and no line after a final line feed.
pub open spec fn lines(text: Seq<u8>) -> Seq<Seq<u8>> {
    lines_in(text).0
}

/// The whitespace-separated decimal numbers of `text`; `None` where it
/// holds any other byte or a number that does not fit `usize`.
pub fn parse_numbers(text: &[u8]) -> (r: Option<Vec<usize>>)
    ensures
        r is Some <==> numbers(text@) is Some,
        r matches Some(v) ==> numbers(text@) == Some(v@),
{
    let mut vals: Vec<usize> = Vec::new();
    let mut reading = false;
    let mut i: usize = 0;
    while i < text.len()
        invariant
            i <= text@.len(),
            numbers_in(text@.subrange(0, i as int)) == Some((vals@, reading)),
            reading ==> vals@.len() > 0,
        decreases text@.len() - i,
    {
        let b = text[i];
        proof {
            assert(text@.subrange(0, i + 1).drop_last() == text@.subrange(0, i as int));
            lemma_reading_has_number(text@.subrange(0, i as int));
        }
        if (9 <= b && b <= 13) || b == 32 {
            reading = false;
        } else if b < 48 || b > 57 {
            proof {
                lemma_none_stays(text@, i as int + 1);
            }
            return None;
        } else if reading {
            let last = vals.len() - 1;
            let d = (b - 48) as usize;
            if vals[last] > (usize::MAX - d) / 10 {
                proof {
                    lemma_none_stays(text@, i as int + 1);
                }
                return None;
            }
            let v = vals[last] * 10 + d;
            vals.set(last, v);
        } else {
            vals.push((b - 48) as usize);
            reading = true;
        }
        i = i + 1;
    }
    assert(text@.subrange(0, text@.len() as int) == text@);
    Some(vals)
}

proof fn lemma_reading_has_number(text: Seq<u8>)
    ensures
        numbers_in(text) matches Some((vals, reading)) ==> (reading ==> vals.len() > 0),
    decreases text.len(),
{
    if text.len() > 0 {
        lemma_reading_has_number(text.drop_last());
    }
}

/// Once a prefix of `text` holds no numbers, no longer prefix does.
proof fn lemma_none_stays(text: Seq<u8>, i: int)
    requires
        0 <= i <= text.len(),
        numbers_in(text.subrange(0, i)) is None,
    ensures
        numbers_in(text) is None,
    decreases text.len() - i,
{
    if i < text.len() {
        assert(text.subrange(0, i + 1).drop_last() == text.subrange(0, i));
        lemma_none_stays(text, i + 1);
    } else {
        assert(text.subrange(0, i) == text);
    }
}

/// The lines of `text`.
pub fn split_lines(text: &[u8]) -> (r: Vec<Vec<u8>>)
    ensures
        r@.map_values(|l: Vec<u8>| l@) == lines(text@),
{
    let mut out: Vec<Vec<u8>> = Vec::new();
    let mut current: Vec<u8> = Vec::new();
    let mut open = false;
    let mut i: usize = 0;
    while i < text.len()
        invariant
            i <= text@.len(),
            lines_in(text@.subrange(0, i as int)) == (
                if open {
                    out@.map_values(|l: Vec<u8>| l@).push(current@)
                } else {
                    out@.map_values(|l: Vec<u8>| l@)
                },
                open,
            ),
            !open ==> current@.len() == 0,
        decreases text@.len() - i,
    {
        let b = text[i];
        let ghost before = out@.map_values(|l: Vec<u8>| l@);
        let ghost was_open = open;
        let ghost cur0 = current@;
        proof {
            assert(text@.subrange(0, i + 1).drop_last() == text@.subrange(0, i as int));
            assert(before.push(cur0).drop_last() =~= before);
        }
        if b == 10 {
            if open && current.len() > 0 && current[current.len() - 1] == 13 {
                current.pop();
            }
            let line = current;
            current = Vec::new();
            out.push(line);
            open = false;
            proof {
                assert(out@.map_values(|l: Vec<u8>| l@) =~= before.push(line@));
                if !was_open {
                    assert(line@ =~= Seq::<u8>::empty());
                }
            }
        } else {
            current.push(b);
            open = true;
            proof {
                if !was_open {
                    assert(current@ =~= seq![b]);
                }
            }
        }
        i = i + 1;
    }
    if open {
        out.push(current);
    }
    assert(text@.subrange(0, text@.len() as int) == text@);
    out
}

} // verus!
