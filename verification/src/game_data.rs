//! The loaded game data, as far as the integer logic of this crate reads
//! it: where it came from, the room kinds, the Factory formulas, the
//! layout, the affiliations and the operators.

use vstd::prelude::*;
use vstd::utf8::{encode_utf8, is_char_boundary};
use vstd::string::StringSliceAdditionalSpecFns;
use crate::enums::RoomType;
use crate::facility::Facility;
use crate::formula::ManufactureFormula;
use crate::ids::{FormulaId, OperatorId, PowerId};
use crate::layout::BaseLayout;
use crate::operator::Operator;
use crate::power::Power;
use crate::seqs::{first_index, lemma_first_index_is, lemma_first_index_none};
use crate::text::str_eq;

verus! {

/// Provenance of a loaded dataset. Every solve result should carry this so
/// numbers can be traced back to the exact upstream commit and parser.
#[derive(Debug, Clone, PartialEq, Eq)]
pub struct DataVersion {
    /// Manifest source name, e.g. `en_US`.
    pub source: String,
    /// Upstream GitHub repository, e.g. `Kengxxiao/ArknightsGameData_YoStar`.
    pub repo: String,
    /// Pinned upstream commit.
    pub sha: String,
    /// Locale directory, e.g. `en_US`.
    pub locale: String,
    /// When the files were fetched (RFC 3339), if known.
    pub fetched_at: Option<String>,
    /// Version of the crate that produced this model.
    pub parser_version: String,
}

impl DataVersion {
    /// Where `short_sha` cuts the commit id: 12 bytes, or all of it.
    pub open spec fn short_sha_end(&self) -> int {
        let n = encode_utf8(self.sha@).len() as usize;
        if n < 12 {
            n as int
        } else {
            12
        }
    }

    /// First 12 bytes of the commit id (all of it when shorter). The cut
    /// must fall between two characters, as it does for a hex commit id.
    pub fn short_sha(&self) -> (r: &str)
        requires
            is_char_boundary(encode_utf8(self.sha@), self.short_sha_end()),
        ensures
            encode_utf8(r@) == encode_utf8(self.sha@).subrange(0, self.short_sha_end()),
    {
        let s = self.sha.as_str();
        let end = if s.len() < 12 {
            s.len()
        } else {
            12
        };
        let parts = s.split_at(end);
        parts.0
    }
}

/// Everything this crate's integer logic reads from the game data.
#[derive(Debug, Clone, PartialEq, Eq)]
pub struct GameData {
    /// Where this came from.
    pub version: DataVersion,
    /// Upstream `comfortLimit`: the highest Dormitory ambience.
    pub comfort_limit: u32,
    /// Nations, groups, and teams, one per id.
    pub powers: Vec<Power>,
    /// Room kinds, one per `RoomType`.
    pub facilities: Vec<Facility>,
    /// Every operator that has base skills, one per id.
    pub operators: Vec<Operator>,
    /// Factory formulas, one per id.
    pub manufacture_formulas: Vec<ManufactureFormula>,
    /// Physical layout.
    pub layout: BaseLayout,
}

impl GameData {
    /// The parameters of a room kind: the first facility of that kind.
    pub open spec fn spec_facility(&self, room: RoomType) -> Option<Facility> {
        let k = first_index(self.facilities@, |f: Facility| f.room_type == room);
        if k >= 0 {
            Some(self.facilities@[k])
        } else {
            None
        }
    }

    /// The formula with an id: the first one whose id it is.
    pub open spec fn spec_formula(&self, id: Seq<char>) -> Option<ManufactureFormula> {
        let k = first_index(self.manufacture_formulas@, |f: ManufactureFormula| f.id@ == id);
        if k >= 0 {
            Some(self.manufacture_formulas@[k])
        } else {
            None
        }
    }

    /// The operator with an id: the first one whose id it is.
    pub open spec fn spec_operator(&self, id: Seq<char>) -> Option<Operator> {
        let k = first_index(self.operators@, |o: Operator| o.id@ == id);
        if k >= 0 {
            Some(self.operators@[k])
        } else {
            None
        }
    }

    /// The affiliation with an id: the first one whose id it is.
    pub open spec fn spec_power(&self, id: Seq<char>) -> Option<Power> {
        let k = first_index(self.powers@, |p: Power| p.id@ == id);
        if k >= 0 {
            Some(self.powers@[k])
        } else {
            None
        }
    }

    /// Looks up a room kind.
    pub fn facility(&self, room: RoomType) -> (r: Option<&Facility>)
        ensures
            match r {
                Some(f) => self.spec_facility(room) == Some(*f),
                None => self.spec_facility(room) is None,
            },
    {
        let ghost p = |f: Facility| f.room_type == room;
        let mut i: usize = 0;
        while i < self.facilities.len()
            invariant
                p == |f: Facility| f.room_type == room,
                i <= self.facilities@.len(),
                forall|j: int| 0 <= j < i ==> !p(self.facilities@[j]),
            decreases self.facilities@.len() - i,
        {
            if self.facilities[i].room_type == room {
                proof {
                    lemma_first_index_is(self.facilities@, p, i as int);
                }
                return Some(&self.facilities[i]);
            }
            i = i + 1;
        }
        proof {
            lemma_first_index_none(self.facilities@, p);
        }
        None
    }

    /// Looks up a Factory formula by id.
    pub fn formula(&self, id: &str) -> (r: Option<&ManufactureFormula>)
        ensures
            match r {
                Some(f) => self.spec_formula(id@) == Some(*f),
                None => self.spec_formula(id@) is None,
            },
    {
        let ghost p = |f: ManufactureFormula| f.id@ == id@;
        let mut i: usize = 0;
        while i < self.manufacture_formulas.len()
            invariant
                p == |f: ManufactureFormula| f.id@ == id@,
                i <= self.manufacture_formulas@.len(),
                forall|j: int| 0 <= j < i ==> !p(self.manufacture_formulas@[j]),
            decreases self.manufacture_formulas@.len() - i,
        {
            if str_eq(self.manufacture_formulas[i].id.as_str(), id) {
                proof {
                    lemma_first_index_is(self.manufacture_formulas@, p, i as int);
                }
                return Some(&self.manufacture_formulas[i]);
            }
            i = i + 1;
        }
        proof {
            lemma_first_index_none(self.manufacture_formulas@, p);
        }
        None
    }

    /// Looks up an operator by upstream id.
    pub fn operator(&self, id: &str) -> (r: Option<&Operator>)
        ensures
            match r {
                Some(o) => self.spec_operator(id@) == Some(*o),
                None => self.spec_operator(id@) is None,
            },
    {
        let ghost p = |o: Operator| o.id@ == id@;
        let mut i: usize = 0;
        while i < self.operators.len()
            invariant
                p == |o: Operator| o.id@ == id@,
                i <= self.operators@.len(),
                forall|j: int| 0 <= j < i ==> !p(self.operators@[j]),
            decreases self.operators@.len() - i,
        {
            if str_eq(self.operators[i].id.as_str(), id) {
                proof {
                    lemma_first_index_is(self.operators@, p, i as int);
                }
                return Some(&self.operators[i]);
            }
            i = i + 1;
        }
        proof {
            lemma_first_index_none(self.operators@, p);
        }
        None
    }

    /// Looks up a nation/group/team.
    pub fn power(&self, id: &str) -> (r: Option<&Power>)
        ensures
            match r {
                Some(x) => self.spec_power(id@) == Some(*x),
                None => self.spec_power(id@) is None,
            },
    {
        let ghost p = |x: Power| x.id@ == id@;
        let mut i: usize = 0;
        while i < self.powers.len()
            invariant
                p == |x: Power| x.id@ == id@,
                i <= self.powers@.len(),
                forall|j: int| 0 <= j < i ==> !p(self.powers@[j]),
            decreases self.powers@.len() - i,
        {
            if str_eq(self.powers[i].id.as_str(), id) {
                proof {
                    lemma_first_index_is(self.powers@, p, i as int);
                }
                return Some(&self.powers[i]);
            }
            i = i + 1;
        }
        proof {
            lemma_first_index_none(self.powers@, p);
        }
        None
    }
}

} // verus!
