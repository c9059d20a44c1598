use vstd::prelude::*;

use crate::angle::{normalize_longitude, normalized, Angle};
use crate::tiers::{quadids, QUADRANT_BASES};

verus! {

/// Why a coordinate cannot be resolved.
#[derive(Debug, Copy, Clone, PartialEq, Eq)]
pub enum RegionError {
    /// Longitude is out of allowable range
    BadLongitude,
    /// Latitude is out of allowable range
    BadLatitude,
}

/// The tables a lookup consumes.
///
/// - `tier_index`: per quadrant and whole degree of latitude, the 1-based
///   onset of that tier in `segments` and the number of its segments.
/// - `segments`: (longitude threshold, region number) breakpoints, tier by
///   tier, thresholds increasing within a tier.
/// - `names`: region names; region number `n` is named by `names[n - 1]`.
pub struct Dataset {
    pub tier_index: Vec<(usize, usize)>,
    pub segments: Vec<(usize, usize)>,
    pub names: Vec<String>,
}

/// Number of tiers: four quadrants of 91 whole degrees of latitude each.
pub const TIER_COUNT: usize = 364;

/// Every tier lies within the segment table and holds at least one segment.
pub open spec fn tiers_fit(tier_index: Seq<(usize, usize)>, segments: Seq<(usize, usize)>) -> bool {
    &&& tier_index.len() == TIER_COUNT
    &&& forall|t: int|
        0 <= t < tier_index.len() ==> {
            &&& #[trigger] tier_index[t].0 >= 1
            &&& tier_index[t].1 >= 1
            &&& tier_index[t].0 - 1 + tier_index[t].1 <= segments.len()
        }
}

/// Thresholds strictly increase over the segments `start..end`.
pub open spec fn rising(segments: Seq<(usize, usize)>, start: int, end: int) -> bool {
    forall|j: int| start <= j && j + 1 < end ==> #[trigger] segments[j].0 < segments[j + 1].0
}

/// Within every tier, thresholds strictly increase.
pub open spec fn thresholds_rise(tier_index: Seq<(usize, usize)>, segments: Seq<(usize, usize)>) -> bool {
    forall|t: int|
        0 <= t < tier_index.len() ==> rising(
            segments,
            #[trigger] tier_index[t].0 - 1,
            tier_index[t].0 - 1 + tier_index[t].1,
        )
}

/// Every region number in the segment table names a region.
pub open spec fn regions_named(segments: Seq<(usize, usize)>, name_count: int) -> bool {
    forall|j: int| 0 <= j < segments.len() ==> 1 <= #[trigger] segments[j].1 <= name_count
}

impl Dataset {
    /// Gathers the tables into a dataset when they are fit for lookups of
    /// region numbers and of names, with thresholds increasing within each
    /// tier; `None` otherwise.
    #[verifier::loop_isolation(false)]
    pub fn new(tier_index: Vec<(usize, usize)>, segments: Vec<(usize, usize)>, names: Vec<String>) -> (r:
        Option<Dataset>)
        ensures
            r is Some <==> tiers_fit(tier_index@, segments@) && thresholds_rise(tier_index@, segments@)
                && regions_named(segments@, names@.len() as int),
            r matches Some(d) ==> d.tier_index@ == tier_index@ && d.segments@ == segments@
                && d.names@ == names@,
    {
        if tier_index.len() != TIER_COUNT {
            return None;
        }
        let segment_count = segments.len();
        let mut t: usize = 0;
        while t < tier_index.len()
            invariant
                t <= tier_index@.len(),
                segment_count == segments@.len(),
                forall|u: int|
                    0 <= u < t ==> {
                        &&& #[trigger] tier_index@[u].0 >= 1
                        &&& tier_index@[u].1 >= 1
                        &&& tier_index@[u].0 - 1 + tier_index@[u].1 <= segments@.len()
                        &&& rising(segments@, tier_index@[u].0 - 1, tier_index@[u].0 - 1 + tier_index@[u].1)
                    },
            decreases tier_index@.len() - t,
        {
            let (onset, count) = tier_index[t];
            if onset < 1 || count < 1 || count > segment_count || onset - 1 > segment_count - count {
                assert(tier_index@[t as int].0 == onset && tier_index@[t as int].1 == count);
                return None;
            }
            let start = onset - 1;
            let end = start + count;
            let mut j: usize = start;
            while j + 1 < end
                invariant
                    start <= j < end,
                    end <= segments@.len(),
                    rising(segments@, start as int, j as int + 1),
                decreases end - j,
            {
                if segments[j].0 >= segments[j + 1].0 {
                    assert(tier_index@[t as int].0 == onset && tier_index@[t as int].1 == count);
                    assert(!rising(segments@, start as int, end as int));
                    return None;
                }
                j = j + 1;
            }
            assert(tier_index@[t as int].0 == onset && tier_index@[t as int].1 == count);
            t = t + 1;
        }
        let name_count = names.len();
        let mut j: usize = 0;
        while j < segments.len()
            invariant
                j <= segments@.len(),
                name_count == names@.len(),
                forall|k: int| 0 <= k < j ==> 1 <= #[trigger] segments@[k].1 <= name_count,
            decreases segments@.len() - j,
        {
            let number = segments[j].1;
            if number < 1 || number > name_count {
                assert(segments@[j as int].1 == number);
                return None;
            }
            j = j + 1;
        }
        Some(Dataset { tier_index, segments, names })
    }

    /// The tables are fit for lookups of region numbers.
    pub open spec fn wf_tiers(&self) -> bool {
        tiers_fit(self.tier_index@, self.segments@)
    }

    /// The tables are fit for lookups of region numbers and of names.
    pub open spec fn wf(&self) -> bool {
        &&& self.wf_tiers()
        &&& regions_named(self.segments@, self.names@.len() as int)
    }
}

/// The 1-based base of the quadrant that a latitude and a normalized
/// longitude fall in, zero counted with the values above it.
pub open spec fn quadrant_base(lat: Angle, lon: Angle) -> int {
    if lat.at_or_above_zero() {
        if lon.at_or_above_zero() { QUADRANT_BASES[3] as int } else { QUADRANT_BASES[2] as int }
    } else {
        if lon.at_or_above_zero() { QUADRANT_BASES[1] as int } else { QUADRANT_BASES[0] as int }
    }
}

/// The 0-based position in the tier index of the tier of a coordinate.
pub open spec fn tier_position(lat: Angle, lon: Angle) -> int {
    quadrant_base(lat, normalized(lon)) + lat.whole - 1
}

/// The first position in `lo..hi` whose threshold exceeds `ln`, or `hi`.
pub open spec fn first_above(segments: Seq<(usize, usize)>, lo: int, hi: int, ln: int) -> int
    decreases hi - lo,
{
    if lo >= hi {
        hi
    } else if segments[lo].0 > ln {
        lo
    } else {
        first_above(segments, lo + 1, hi, ln)
    }
}

/// The segment chosen for whole longitude `ln` in the tier at `start` with
/// `count` segments: the one before the first threshold above `ln`; the
/// first segment when that is the first; the last when none is above.
pub open spec fn chosen_segment(segments: Seq<(usize, usize)>, start: int, count: int, ln: int) -> int {
    let k = first_above(segments, start, start + count, ln);
    if k == start + count {
        start + count - 1
    } else if k == start {
        start
    } else {
        k - 1
    }
}

/// The region number of a coordinate, or why it has none.
pub open spec fn resolved(
    tier_index: Seq<(usize, usize)>,
    segments: Seq<(usize, usize)>,
    lat: Angle,
    lon: Angle,
) -> Result<usize, RegionError> {
    if lat.exceeds(90) {
        Err(RegionError::BadLatitude)
    } else if lon.exceeds(360) {
        Err(RegionError::BadLongitude)
    } else {
        let tier = tier_index[tier_position(lat, lon)];
        let ln = normalized(lon).whole as int;
        Ok(segments[chosen_segment(segments, tier.0 - 1, tier.1 as int, ln)].1)
    }
}

proof fn lemma_chosen_in_tier(segments: Seq<(usize, usize)>, start: int, count: int, ln: int)
    requires
        count >= 1,
    ensures
        start <= chosen_segment(segments, start, count, ln) < start + count,
{
    lemma_first_above_bounds(segments, start, start + count, ln);
}

proof fn lemma_first_above_bounds(segments: Seq<(usize, usize)>, lo: int, hi: int, ln: int)
    requires
        lo <= hi,
    ensures
        lo <= first_above(segments, lo, hi, ln) <= hi,
    decreases hi - lo,
{
    if lo < hi {
        lemma_first_above_bounds(segments, lo + 1, hi, ln);
    }
}

/// Resolves a coordinate against the tables: validates the latitude, then
/// the longitude, normalizes the longitude, selects the tier of the
/// quadrant and whole degree of latitude, and scans its segments.
fn namnum(
    lat: Angle,
    lon: Angle,
    quadid: &[usize; 4],
    llindx: &Vec<(usize, usize)>,
    lattiers: &Vec<(usize, usize)>,
) -> (r: Result<usize, RegionError>)
    requires
        quadid@ == QUADRANT_BASES@,
        tiers_fit(llindx@, lattiers@),
    ensures
        r == resolved(llindx@, lattiers@, lat, lon),
{
    if lat.magnitude_exceeds(90) {
        return Err(RegionError::BadLatitude);
    }
    if lon.magnitude_exceeds(360) {
        return Err(RegionError::BadLongitude);
    }
    let lon = normalize_longitude(lon);
    let quadon = match (!lat.below_zero, !lon.below_zero) {
        (true, true) => quadid[3],
        (true, false) => quadid[2],
        (false, true) => quadid[1],
        (false, false) => quadid[0],
    };
    let lt = lat.whole as usize;
    let ln = lon.whole as usize;
    let recnbr = quadon + lt - 1;
    let (tieron, nbrbdy) = llindx[recnbr];
    let segment_count = lattiers.len();
    assert(llindx@[recnbr as int].0 >= 1);
    assert(tieron - 1 + nbrbdy <= segment_count);
    let start = tieron - 1;
    let end = start + nbrbdy;
    proof {
        lemma_first_above_bounds(lattiers@, start as int, end as int, ln as int);
    }
    let mut i: usize = start;
    while i < end && lattiers[i].0 <= ln
        invariant
            start <= i <= end,
            end <= lattiers@.len(),
            first_above(lattiers@, i as int, end as int, ln as int)
                == first_above(lattiers@, start as int, end as int, ln as int),
        decreases end - i,
    {
        i = i + 1;
    }
    let pick = if i == end {
        end - 1
    } else if i == start {
        start
    } else {
        i - 1
    };
    Ok(lattiers[pick].1)
}

/// The region number of the coordinate (`lat`, `lon`) in `data`.
///
/// Latitude must lie within [-90, 90] and longitude within [-360, 360];
/// a longitude beyond [-180, 180] is taken one full turn back. Longitudes
/// of exactly 180 and -180 are not the same and may resolve differently.
pub fn region_number(data: &Dataset, lat: Angle, lon: Angle) -> (r: Result<usize, RegionError>)
    requires
        data.wf_tiers(),
    ensures
        r == resolved(data.tier_index@, data.segments@, lat, lon),
        r == Err::<usize, RegionError>(RegionError::BadLatitude) <==> lat.exceeds(90),
        r == Err::<usize, RegionError>(RegionError::BadLongitude) <==> !lat.exceeds(90)
            && lon.exceeds(360),
{
    namnum(lat, lon, &quadids(), &data.tier_index, &data.segments)
}

/// The name of the region of the coordinate (`lat`, `lon`) in `data`.
pub fn region<'a>(data: &'a Dataset, lat: Angle, lon: Angle) -> (r: Result<&'a String, RegionError>)
    requires
        data.wf(),
    ensures
        match resolved(data.tier_index@, data.segments@, lat, lon) {
            Ok(n) => r == Ok::<&String, RegionError>(&data.names@[n - 1]),
            Err(e) => r == Err::<&String, RegionError>(e),
        },
{
    proof {
        if !lat.exceeds(90) && !lon.exceeds(360) {
            let tier = data.tier_index@[tier_position(lat, lon)];
            lemma_chosen_in_tier(data.segments@, tier.0 - 1, tier.1 as int, normalized(lon).whole as int);
        }
    }
    match region_number(data, lat, lon) {
        Ok(n) => Ok(&data.names[n - 1]),
        Err(e) => Err(e),
    }
}

/// `east` lies exactly one full turn east of `west`: `east == west + 360`,
/// with `east` in [0, 360] and `west` in [-360, 0].
pub open spec fn full_turn_apart(east: Angle, west: Angle) -> bool {
    &&& !east.below_zero
    &&& if west.below_zero {
        &&& west.whole > 0 || west.fraction
        &&& east.fraction == west.fraction
        &&& east.whole + west.whole + (if west.fraction { 1int } else { 0int }) == 360
    } else {
        &&& east.whole == 360 && !east.fraction
        &&& west.whole == 0 && !west.fraction
    }
}

/// Two longitudes a full turn apart resolve alike, at every latitude, in
/// every dataset, with one exception: 180 and -180 are not normalized and
/// may resolve differently.
pub proof fn lemma_full_turn(
    tier_index: Seq<(usize, usize)>,
    segments: Seq<(usize, usize)>,
    lat: Angle,
    east: Angle,
    west: Angle,
)
    requires
        full_turn_apart(east, west),
        !(east.whole == 180 && !east.fraction),
    ensures
        resolved(tier_index, segments, lat, east) == resolved(tier_index, segments, lat, west),
{
    assert(normalized(east) == normalized(west));
}

} // verus!
