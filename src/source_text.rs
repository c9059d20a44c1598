use vstd::prelude::*;
use vstd::string::StringSliceAdditionalSpecFns;

use crate::raw::{lines, numbers, pairs_of, parse_numbers, split_lines};
use crate::tiers::{indexed_tier, lat_lon_index, lemma_segments_before_grows, segments_before};

verus! {

/// The decimal digits of `n`, most significant first, in ASCII.
pub open spec fn decimal(n: nat) -> Seq<u8>
    decreases n,
{
    if n < 10 {
        seq![(48 + n) as u8]
    } else {
        decimal(n / 10).push((48 + n % 10) as u8)
    }
}

/// One line of a table of pairs: ` (a, b),`.
pub open spec fn pair_line(entry: (usize, usize)) -> Seq<u8> {
    " (".spec_bytes() + decimal(entry.0 as nat) + ", ".spec_bytes() + decimal(entry.1 as nat)
        + "),\n".spec_bytes()
}

/// The lines of all entries of a table of pairs, in order.
pub open spec fn pair_lines(entries: Seq<(usize, usize)>) -> Seq<u8>
    decreases entries.len(),
{
    if entries.len() == 0 {
        Seq::empty()
    } else {
        pair_lines(entries.drop_last()) + pair_line(entries.last())
    }
}

/// Rust source declaring a constant array of pairs: `opening`, the number
/// of entries, one line per entry, then `closing`.
pub open spec fn pairs_source(opening: Seq<u8>, entries: Seq<(usize, usize)>, closing: Seq<u8>) -> Seq<u8> {
    opening + decimal(entries.len()) + "] = [\n".spec_bytes() + pair_lines(entries) + closing
}

/// Rust source declaring a tier index as the constant `LLINDX`.
pub open spec fn index_source(entries: Seq<(usize, usize)>) -> Seq<u8> {
    pairs_source("const LLINDX: [(usize,usize); ".spec_bytes(), entries, "];\n".spec_bytes())
}

/// Rust source declaring a segment table as the constant `LAT_TIERS`.
pub open spec fn segments_source(entries: Seq<(usize, usize)>) -> Seq<u8> {
    pairs_source("const LAT_TIERS: [(usize,usize); ".spec_bytes(), entries, "];".spec_bytes())
}

/// One line of the name table source: ` "name",`.
pub open spec fn name_line(name: Seq<u8>) -> Seq<u8> {
    " \"".spec_bytes() + name + "\",\n".spec_bytes()
}

/// The lines of all names, in order.
pub open spec fn name_lines(names: Seq<Seq<u8>>) -> Seq<u8>
    decreases names.len(),
{
    if names.len() == 0 {
        Seq::empty()
    } else {
        name_lines(names.drop_last()) + name_line(names.last())
    }
}

/// Rust source declaring a name table as the constant `NAMES`.
pub open spec fn names_source(names: Seq<Seq<u8>>) -> Seq<u8> {
    "const NAMES: [&str; ".spec_bytes() + decimal(names.len()) + "] = [\n".spec_bytes()
        + name_lines(names) + "];".spec_bytes()
}

/// Appends `bytes`.
fn push_bytes(out: &mut Vec<u8>, bytes: &[u8])
    ensures
        final(out)@ == old(out)@ + bytes@,
{
    let mut i: usize = 0;
    while i < bytes.len()
        invariant
            i <= bytes@.len(),
            out@ == old(out)@ + bytes@.subrange(0, i as int),
        decreases bytes@.len() - i,
    {
        out.push(bytes[i]);
        i = i + 1;
        assert(bytes@.subrange(0, i as int) == bytes@.subrange(0, i - 1) + seq![bytes@[i - 1]]);
    }
    assert(bytes@.subrange(0, bytes@.len() as int) == bytes@);
}

/// Appends the bytes of `text`.
fn push_text(out: &mut Vec<u8>, text: &str)
    ensures
        final(out)@ == old(out)@ + text.spec_bytes(),
{
    push_bytes(out, text.as_bytes());
}

/// Appends the decimal digits of `n`.
fn push_decimal(out: &mut Vec<u8>, n: usize)
    ensures
        final(out)@ == old(out)@ + decimal(n as nat),
    decreases n,
{
    if n < 10 {
        out.push((48 + n) as u8);
    } else {
        push_decimal(out, n / 10);
        out.push((48 + n % 10) as u8);
    }
}

/// Writes `entries` as Rust source for a constant array of pairs.
fn pairs_write(opening: &str, entries: &[(usize, usize)], closing: &str) -> (r: Vec<u8>)
    ensures
        r@ == pairs_source(opening.spec_bytes(), entries@, closing.spec_bytes()),
{
    let mut out: Vec<u8> = Vec::new();
    push_text(&mut out, opening);
    push_decimal(&mut out, entries.len());
    push_text(&mut out, "] = [\n");
    let ghost head = out@;
    let mut t: usize = 0;
    while t < entries.len()
        invariant
            t <= entries@.len(),
            out@ == head + pair_lines(entries@.subrange(0, t as int)),
        decreases entries@.len() - t,
    {
        let (a, b) = entries[t];
        push_text(&mut out, " (");
        push_decimal(&mut out, a);
        push_text(&mut out, ", ");
        push_decimal(&mut out, b);
        push_text(&mut out, "),\n");
        t = t + 1;
        assert(entries@.subrange(0, t as int).drop_last() == entries@.subrange(0, t - 1));
    }
    assert(entries@.subrange(0, entries@.len() as int) == entries@);
    push_text(&mut out, closing);
    out
}

/// A tier index written out as Rust source declaring the constant
/// `LLINDX`, one entry per line.
pub fn lat_lon_index_write(llindx: &[(usize, usize)]) -> (r: Vec<u8>)
    ensures
        r@ == index_source(llindx@),
{
    pairs_write("const LLINDX: [(usize,usize); ", llindx, "];\n")
}

/// A segment table written out as Rust source declaring the constant
/// `LAT_TIERS`, one entry per line.
pub fn latitude_tiers_write(lattiers: &[(usize, usize)]) -> (r: Vec<u8>)
    ensures
        r@ == segments_source(lattiers@),
{
    pairs_write("const LAT_TIERS: [(usize,usize); ", lattiers, "];")
}

/// A name table written out as Rust source declaring the constant `NAMES`,
/// one quoted name per line.
pub fn names_write(names: &[Vec<u8>]) -> (r: Vec<u8>)
    ensures
        r@ == names_source(names@.map_values(|n: Vec<u8>| n@)),
{
    let ghost views = names@.map_values(|n: Vec<u8>| n@);
    let mut out: Vec<u8> = Vec::new();
    push_text(&mut out, "const NAMES: [&str; ");
    push_decimal(&mut out, names.len());
    push_text(&mut out, "] = [\n");
    let ghost head = out@;
    let mut t: usize = 0;
    while t < names.len()
        invariant
            t <= names@.len(),
            views == names@.map_values(|n: Vec<u8>| n@),
            out@ == head + name_lines(views.subrange(0, t as int)),
        decreases names@.len() - t,
    {
        push_text(&mut out, " \"");
        push_bytes(&mut out, names[t].as_slice());
        push_text(&mut out, "\",\n");
        t = t + 1;
        assert(views.subrange(0, t as int).drop_last() == views.subrange(0, t - 1));
    }
    assert(views.subrange(0, names@.len() as int) == views);
    push_text(&mut out, "];");
    out
}

/// The tier index read from whitespace-separated per-tier segment counts;
/// `None` where the text holds anything else, or where the segments do not
/// fit `usize`.
pub fn llindx(text: &[u8]) -> (r: Option<Vec<(usize, usize)>>)
    ensures
        r is Some <==> (numbers(text@) matches Some(c) && segments_before(c, c.len() as int)
            < usize::MAX),
        r matches Some(index) ==> (numbers(text@) matches Some(c) && index@ == Seq::new(
            c.len(),
            |t: int| indexed_tier(c, t),
        )),
{
    let counts = match parse_numbers(text) {
        Some(c) => c,
        None => return None,
    };
    let mut total: usize = 0;
    let mut t: usize = 0;
    while t < counts.len()
        invariant
            t <= counts@.len(),
            total == segments_before(counts@, t as int),
            total < usize::MAX,
            numbers(text@) == Some(counts@),
        decreases counts@.len() - t,
    {
        if counts[t] >= usize::MAX - total {
            proof {
                assert(segments_before(counts@, t + 1) == total + counts@[t as int]);
                lemma_segments_before_grows(counts@, t as int + 1, counts@.len() as int);
            }
            return None;
        }
        total = total + counts[t];
        t = t + 1;
    }
    let index = lat_lon_index(counts.as_slice());
    assert(index@ =~= Seq::new(counts@.len(), |t: int| indexed_tier(counts@, t)));
    Some(index)
}

/// The tier index read from per-tier segment counts, written out as Rust
/// source declaring it as the constant `LLINDX`; `None` where the counts
/// cannot be read.
pub fn reformat_lat_lon_index(text: &[u8]) -> (r: Option<Vec<u8>>)
    ensures
        r is Some <==> (numbers(text@) matches Some(c) && segments_before(c, c.len() as int)
            < usize::MAX),
        r matches Some(out) ==> (numbers(text@) matches Some(c) && out@ == index_source(
            Seq::new(c.len(), |t: int| indexed_tier(c, t)),
        )),
{
    match llindx(text) {
        Some(index) => Some(lat_lon_index_write(index.as_slice())),
        None => None,
    }
}

/// The (longitude threshold, region number) pairs of the sections, one
/// section after another; `None` where a section cannot be read.
pub open spec fn section_pairs(sections: Seq<Seq<u8>>) -> Option<Seq<(usize, usize)>>
    decreases sections.len(),
{
    if sections.len() == 0 {
        Some(Seq::empty())
    } else {
        match (section_pairs(sections.drop_last()), numbers(sections.last())) {
            (Some(before), Some(vals)) => Some(before + pairs_of(vals)),
            _ => None,
        }
    }
}

/// The segment table read from sections of whitespace-separated numbers,
/// taken two at a time within each section.
pub fn latitude_tiers_read(sections: &[Vec<u8>]) -> (r: Option<Vec<(usize, usize)>>)
    ensures
        r is Some <==> section_pairs(sections@.map_values(|s: Vec<u8>| s@)) is Some,
        r matches Some(v) ==> section_pairs(sections@.map_values(|s: Vec<u8>| s@)) == Some(v@),
{
    let ghost views = sections@.map_values(|s: Vec<u8>| s@);
    let mut out: Vec<(usize, usize)> = Vec::new();
    let mut k: usize = 0;
    while k < sections.len()
        invariant
            k <= sections@.len(),
            views == sections@.map_values(|s: Vec<u8>| s@),
            section_pairs(views.subrange(0, k as int)) == Some(out@),
        decreases sections@.len() - k,
    {
        assert(views.subrange(0, k + 1).drop_last() == views.subrange(0, k as int));
        let vals = match parse_numbers(sections[k].as_slice()) {
            Some(v) => v,
            None => {
                proof {
                    lemma_sections_none_stays(views, k as int + 1);
                }
                return None;
            },
        };
        let ghost before = out@;
        let mut i: usize = 0;
        while i + 1 < vals.len()
            invariant
                i % 2 == 0,
                i <= vals@.len(),
                out@ == before + pairs_of(vals@.subrange(0, i as int)),
            decreases vals@.len() - i,
        {
            out.push((vals[i], vals[i + 1]));
            i = i + 2;
            assert(pairs_of(vals@.subrange(0, i as int)) =~= pairs_of(vals@.subrange(0, i - 2)).push(
                (vals@[i - 2], vals@[i - 1]),
            ));
        }
        assert(pairs_of(vals@.subrange(0, i as int)) =~= pairs_of(vals@));
        k = k + 1;
    }
    assert(views.subrange(0, sections@.len() as int) == views);
    Some(out)
}

proof fn lemma_sections_none_stays(sections: Seq<Seq<u8>>, k: int)
    requires
        0 <= k <= sections.len(),
        section_pairs(sections.subrange(0, k)) is None,
    ensures
        section_pairs(sections) is None,
    decreases sections.len() - k,
{
    if k < sections.len() {
        assert(sections.subrange(0, k + 1).drop_last() == sections.subrange(0, k));
        lemma_sections_none_stays(sections, k + 1);
    } else {
        assert(sections.subrange(0, k) == sections);
    }
}

/// The segment table read from its sections, written out as Rust source
/// declaring the constant `LAT_TIERS`; `None` where a section cannot be
/// read.
pub fn reformat_latitude_tiers(sections: &[Vec<u8>]) -> (r: Option<Vec<u8>>)
    ensures
        r is Some <==> section_pairs(sections@.map_values(|s: Vec<u8>| s@)) is Some,
        r matches Some(out) ==> (section_pairs(sections@.map_values(|s: Vec<u8>| s@)) matches Some(
            p,
        ) && out@ == segments_source(p)),
{
    match latitude_tiers_read(sections) {
        Some(pairs) => Some(latitude_tiers_write(pairs.as_slice())),
        None => None,
    }
}

/// The name table read one name per line, written out as Rust source
/// declaring the constant `NAMES`.
pub fn reformat_names(text: &[u8]) -> (r: Vec<u8>)
    ensures
        r@ == names_source(lines(text@)),
{
    let names = split_lines(text);
    names_write(names.as_slice())
}

} // verus!
