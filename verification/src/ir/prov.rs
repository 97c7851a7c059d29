//! Model provenance and layout locations.

use vstd::prelude::*;

verus! {

/// Grid resolution of page-relative layout coordinates.
pub const LOCATION_RESOLUTION: u16 = 512;

/// Stable model provenance of an IR block: `(section, paragraph, control)`.
#[derive(Debug, Clone, Copy, PartialEq, Eq, Structural)]
pub struct Prov {
    pub section: usize,
    pub paragraph: usize,
    /// Index into the paragraph's controls, or `None` for the paragraph text.
    pub control: Option<usize>,
}

impl Prov {
    /// Provenance of a paragraph's own text lines.
    pub fn text(section: usize, paragraph: usize) -> (p: Prov)
        ensures
            p == (Prov { section, paragraph, control: None }),
    {
        Prov { section, paragraph, control: None }
    }

    /// Provenance of a control inside a paragraph.
    pub fn control(section: usize, paragraph: usize, control: usize) -> (p: Prov)
        ensures
            p == (Prov { section, paragraph, control: Some(control) }),
    {
        Prov { section, paragraph, control: Some(control) }
    }
}

/// A page-relative bounding box on the `0..=LOCATION_RESOLUTION` grid.
#[derive(Debug, Clone, Copy, PartialEq, Eq, Structural)]
pub struct Location {
    pub page: u32,
    pub x_min: u16,
    pub y_min: u16,
    pub x_max: u16,
    pub y_max: u16,
}

/// Layout locations keyed by provenance.
#[derive(Debug)]
pub struct LocationMap {
    entries: Vec<(Prov, Location)>,
}

/// The map that a list of entries describes; a later entry wins.
pub open spec fn entries_map(s: Seq<(Prov, Location)>) -> Map<Prov, Location>
    decreases s.len(),
{
    if s.len() == 0 {
        Map::empty()
    } else {
        entries_map(s.drop_last()).insert(s.last().0, s.last().1)
    }
}

proof fn lemma_entries_map_suffix(s: Seq<(Prov, Location)>, j: int, k: Prov)
    requires
        0 <= j <= s.len(),
        forall|i: int| j <= i < s.len() ==> (#[trigger] s[i]).0 != k,
    ensures
        entries_map(s).contains_key(k) == entries_map(s.take(j)).contains_key(k),
        entries_map(s).contains_key(k) ==> entries_map(s)[k] == entries_map(s.take(j))[k],
    decreases s.len() - j,
{
    if j < s.len() {
        assert(s.drop_last().take(j) =~= s.take(j));
        lemma_entries_map_suffix(s.drop_last(), j, k);
    } else {
        assert(s.take(j) =~= s);
    }
}

impl View for LocationMap {
    type V = Map<Prov, Location>;

    closed spec fn view(&self) -> Map<Prov, Location> {
        entries_map(self.entries@)
    }
}

impl LocationMap {
    /// An empty map.
    pub fn new() -> (m: LocationMap)
        ensures
            m@ == Map::<Prov, Location>::empty(),
    {
        LocationMap { entries: Vec::new() }
    }

    /// Records `loc` for `prov`, replacing any earlier location.
    pub fn insert(&mut self, prov: Prov, loc: Location)
        ensures
            final(self)@ == old(self)@.insert(prov, loc),
    {
        self.entries.push((prov, loc));
        assert(self.entries@.drop_last() =~= old(self).entries@);
    }

    /// The location recorded for `prov`, if any.
    pub fn get(&self, prov: &Prov) -> (r: Option<&Location>)
        ensures
            r == (if self@.contains_key(*prov) {
                Some(&self@[*prov])
            } else {
                None
            }),
    {
        let mut i: usize = self.entries.len();
        while i > 0
            invariant
                i <= self.entries@.len(),
                forall|j: int| i <= j < self.entries@.len() ==> (#[trigger] self.entries@[j]).0
                    != *prov,
            decreases i,
        {
            let e = &self.entries[i - 1];
            if e.0 == *prov {
                proof {
                    let s = self.entries@;
                    lemma_entries_map_suffix(s, i as int, *prov);
                    assert(s.take(i as int).drop_last() =~= s.take(i - 1));
                    assert(s.take(i as int).last() == s[i - 1]);
                }
                return Some(&e.1);
            }
            i -= 1;
        }
        proof {
            lemma_entries_map_suffix(self.entries@, 0, *prov);
        }
        None
    }
}

} // verus!
