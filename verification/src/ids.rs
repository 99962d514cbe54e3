//! Newtyped identifiers. Every upstream string id gets its own type so an
//! `OperatorId` can never be passed where a `BuffId` is expected. Each one is
//! viewed as the characters it holds.

use vstd::prelude::*;
use crate::text::{str_eq, split_once_char, prefix_before, lemma_prefix_before_absent};

verus! {

/// Upstream character id, e.g. `char_285_medic2`.
#[derive(Debug, Clone, PartialEq, Eq, Hash, PartialOrd, Ord)]
pub struct OperatorId(String);

impl View for OperatorId {
    type V = Seq<char>;

    closed spec fn view(&self) -> Seq<char> {
        self.0@
    }
}

impl OperatorId {
    /// Wraps an identifier.
    pub fn new(value: &str) -> (r: Self)
        ensures
            r@ == value@,
    {
        OperatorId(value.to_owned())
    }

    /// Wraps an owned identifier.
    pub fn from_string(value: String) -> (r: Self)
        ensures
            r@ == value@,
    {
        OperatorId(value)
    }

    /// The identifier as a string slice.
    pub fn as_str(&self) -> (r: &str)
        ensures
            r@ == self@,
    {
        self.0.as_str()
    }

    /// Unwraps into the underlying `String`.
    pub fn into_string(self) -> (r: String)
        ensures
            r@ == self@,
    {
        self.0
    }

    /// A copy of this id.
    pub fn duplicate(&self) -> (r: Self)
        ensures
            r == *self,
    {
        OperatorId(self.0.clone())
    }

    /// Whether two ids hold the same characters.
    pub fn same(&self, other: &Self) -> (r: bool)
        ensures
            r == (self@ == other@),
    {
        str_eq(self.0.as_str(), other.0.as_str())
    }
}

impl std::borrow::Borrow<str> for OperatorId {
    fn borrow(&self) -> (r: &str)
        ensures
            ({
                let s: &str = r;
                s@ == self@
            }),
    {
        self.0.as_str()
    }
}

impl AsRef<str> for OperatorId {
    fn as_ref(&self) -> (r: &str)
        ensures
            ({
                let s: &str = r;
                s@ == self@
            }),
    {
        self.0.as_str()
    }
}

/// Upstream base-skill ("buff") id, e.g. `manu_prod_spd[000]`.
///
/// The bracketed suffix distinguishes tiers of the same skill family;
/// the part before `[` is the family name.
#[derive(Debug, Clone, PartialEq, Eq, Hash, PartialOrd, Ord)]
pub struct BuffId(String);

impl View for BuffId {
    type V = Seq<char>;

    closed spec fn view(&self) -> Seq<char> {
        self.0@
    }
}

impl BuffId {
    /// Wraps an identifier.
    pub fn new(value: &str) -> (r: Self)
        ensures
            r@ == value@,
    {
        BuffId(value.to_owned())
    }

    /// Wraps an owned identifier.
    pub fn from_string(value: String) -> (r: Self)
        ensures
            r@ == value@,
    {
        BuffId(value)
    }

    /// The identifier as a string slice.
    pub fn as_str(&self) -> (r: &str)
        ensures
            r@ == self@,
    {
        self.0.as_str()
    }

    /// Unwraps into the underlying `String`.
    pub fn into_string(self) -> (r: String)
        ensures
            r@ == self@,
    {
        self.0
    }

    /// A copy of this id.
    pub fn duplicate(&self) -> (r: Self)
        ensures
            r == *self,
    {
        BuffId(self.0.clone())
    }

    /// Whether two ids hold the same characters.
    pub fn same(&self, other: &Self) -> (r: bool)
        ensures
            r == (self@ == other@),
    {
        str_eq(self.0.as_str(), other.0.as_str())
    }
}

impl BuffId {
    /// The skill family, i.e. the id with its `[...]` tier suffix removed:
    /// everything before the first `[`.
    pub fn family(&self) -> (r: &str)
        ensures
            r@ == prefix_before(self@, '['),
    {
        match split_once_char(self.0.as_str(), '[') {
            Some((head, _)) => head,
            None => {
                proof {
                    lemma_prefix_before_absent(self@, '[');
                }
                self.0.as_str()
            },
        }
    }
}

impl std::borrow::Borrow<str> for BuffId {
    fn borrow(&self) -> (r: &str)
        ensures
            ({
                let s: &str = r;
                s@ == self@
            }),
    {
        self.0.as_str()
    }
}

impl AsRef<str> for BuffId {
    fn as_ref(&self) -> (r: &str)
        ensures
            ({
                let s: &str = r;
                s@ == self@
            }),
    {
        self.0.as_str()
    }
}

/// A nation, group, or team id from `handbook_team_table`, e.g. `rhodes`,
/// `rhine`, `action4`. All three levels share one namespace upstream.
#[derive(Debug, Clone, PartialEq, Eq, Hash, PartialOrd, Ord)]
pub struct PowerId(String);

impl View for PowerId {
    type V = Seq<char>;

    closed spec fn view(&self) -> Seq<char> {
        self.0@
    }
}

impl PowerId {
    /// Wraps an identifier.
    pub fn new(value: &str) -> (r: Self)
        ensures
            r@ == value@,
    {
        PowerId(value.to_owned())
    }

    /// Wraps an owned identifier.
    pub fn from_string(value: String) -> (r: Self)
        ensures
            r@ == value@,
    {
        PowerId(value)
    }

    /// The identifier as a string slice.
    pub fn as_str(&self) -> (r: &str)
        ensures
            r@ == self@,
    {
        self.0.as_str()
    }

    /// Unwraps into the underlying `String`.
    pub fn into_string(self) -> (r: String)
        ensures
            r@ == self@,
    {
        self.0
    }

    /// A copy of this id.
    pub fn duplicate(&self) -> (r: Self)
        ensures
            r == *self,
    {
        PowerId(self.0.clone())
    }

    /// Whether two ids hold the same characters.
    pub fn same(&self, other: &Self) -> (r: bool)
        ensures
            r == (self@ == other@),
    {
        str_eq(self.0.as_str(), other.0.as_str())
    }
}

impl std::borrow::Borrow<str> for PowerId {
    fn borrow(&self) -> (r: &str)
        ensures
            ({
                let s: &str = r;
                s@ == self@
            }),
    {
        self.0.as_str()
    }
}

impl AsRef<str> for PowerId {
    fn as_ref(&self) -> (r: &str)
        ensures
            ({
                let s: &str = r;
                s@ == self@
            }),
    {
        self.0.as_str()
    }
}

/// Upstream subclass id, e.g. `physician`, `fearless`.
#[derive(Debug, Clone, PartialEq, Eq, Hash, PartialOrd, Ord)]
pub struct SubProfessionId(String);

impl View for SubProfessionId {
    type V = Seq<char>;

    closed spec fn view(&self) -> Seq<char> {
        self.0@
    }
}

impl SubProfessionId {
    /// Wraps an identifier.
    pub fn new(value: &str) -> (r: Self)
        ensures
            r@ == value@,
    {
        SubProfessionId(value.to_owned())
    }

    /// Wraps an owned identifier.
    pub fn from_string(value: String) -> (r: Self)
        ensures
            r@ == value@,
    {
        SubProfessionId(value)
    }

    /// The identifier as a string slice.
    pub fn as_str(&self) -> (r: &str)
        ensures
            r@ == self@,
    {
        self.0.as_str()
    }

    /// Unwraps into the underlying `String`.
    pub fn into_string(self) -> (r: String)
        ensures
            r@ == self@,
    {
        self.0
    }

    /// A copy of this id.
    pub fn duplicate(&self) -> (r: Self)
        ensures
            r == *self,
    {
        SubProfessionId(self.0.clone())
    }

    /// Whether two ids hold the same characters.
    pub fn same(&self, other: &Self) -> (r: bool)
        ensures
            r == (self@ == other@),
    {
        str_eq(self.0.as_str(), other.0.as_str())
    }
}

impl std::borrow::Borrow<str> for SubProfessionId {
    fn borrow(&self) -> (r: &str)
        ensures
            ({
                let s: &str = r;
                s@ == self@
            }),
    {
        self.0.as_str()
    }
}

impl AsRef<str> for SubProfessionId {
    fn as_ref(&self) -> (r: &str)
        ensures
            ({
                let s: &str = r;
                s@ == self@
            }),
    {
        self.0.as_str()
    }
}

/// A physical slot in the base layout, e.g. `slot_34`.
#[derive(Debug, Clone, PartialEq, Eq, Hash, PartialOrd, Ord)]
pub struct SlotId(String);

impl View for SlotId {
    type V = Seq<char>;

    closed spec fn view(&self) -> Seq<char> {
        self.0@
    }
}

impl SlotId {
    /// Wraps an identifier.
    pub fn new(value: &str) -> (r: Self)
        ensures
            r@ == value@,
    {
        SlotId(value.to_owned())
    }

    /// Wraps an owned identifier.
    pub fn from_string(value: String) -> (r: Self)
        ensures
            r@ == value@,
    {
        SlotId(value)
    }

    /// The identifier as a string slice.
    pub fn as_str(&self) -> (r: &str)
        ensures
            r@ == self@,
    {
        self.0.as_str()
    }

    /// Unwraps into the underlying `String`.
    pub fn into_string(self) -> (r: String)
        ensures
            r@ == self@,
    {
        self.0
    }

    /// A copy of this id.
    pub fn duplicate(&self) -> (r: Self)
        ensures
            r == *self,
    {
        SlotId(self.0.clone())
    }

    /// Whether two ids hold the same characters.
    pub fn same(&self, other: &Self) -> (r: bool)
        ensures
            r == (self@ == other@),
    {
        str_eq(self.0.as_str(), other.0.as_str())
    }
}

impl std::borrow::Borrow<str> for SlotId {
    fn borrow(&self) -> (r: &str)
        ensures
            ({
                let s: &str = r;
                s@ == self@
            }),
    {
        self.0.as_str()
    }
}

impl AsRef<str> for SlotId {
    fn as_ref(&self) -> (r: &str)
        ensures
            ({
                let s: &str = r;
                s@ == self@
            }),
    {
        self.0.as_str()
    }
}

/// Upstream inventory item id, e.g. `2001` (Drill Battle Record).
#[derive(Debug, Clone, PartialEq, Eq, Hash, PartialOrd, Ord)]
pub struct ItemId(String);

impl View for ItemId {
    type V = Seq<char>;

    closed spec fn view(&self) -> Seq<char> {
        self.0@
    }
}

impl ItemId {
    /// Wraps an identifier.
    pub fn new(value: &str) -> (r: Self)
        ensures
            r@ == value@,
    {
        ItemId(value.to_owned())
    }

    /// Wraps an owned identifier.
    pub fn from_string(value: String) -> (r: Self)
        ensures
            r@ == value@,
    {
        ItemId(value)
    }

    /// The identifier as a string slice.
    pub fn as_str(&self) -> (r: &str)
        ensures
            r@ == self@,
    {
        self.0.as_str()
    }

    /// Unwraps into the underlying `String`.
    pub fn into_string(self) -> (r: String)
        ensures
            r@ == self@,
    {
        self.0
    }

    /// A copy of this id.
    pub fn duplicate(&self) -> (r: Self)
        ensures
            r == *self,
    {
        ItemId(self.0.clone())
    }

    /// Whether two ids hold the same characters.
    pub fn same(&self, other: &Self) -> (r: bool)
        ensures
            r == (self@ == other@),
    {
        str_eq(self.0.as_str(), other.0.as_str())
    }
}

impl std::borrow::Borrow<str> for ItemId {
    fn borrow(&self) -> (r: &str)
        ensures
            ({
                let s: &str = r;
                s@ == self@
            }),
    {
        self.0.as_str()
    }
}

impl AsRef<str> for ItemId {
    fn as_ref(&self) -> (r: &str)
        ensures
            ({
                let s: &str = r;
                s@ == self@
            }),
    {
        self.0.as_str()
    }
}

/// Upstream production formula id (numeric string).
#[derive(Debug, Clone, PartialEq, Eq, Hash, PartialOrd, Ord)]
pub struct FormulaId(String);

impl View for FormulaId {
    type V = Seq<char>;

    closed spec fn view(&self) -> Seq<char> {
        self.0@
    }
}

impl FormulaId {
    /// Wraps an identifier.
    pub fn new(value: &str) -> (r: Self)
        ensures
            r@ == value@,
    {
        FormulaId(value.to_owned())
    }

    /// Wraps an owned identifier.
    pub fn from_string(value: String) -> (r: Self)
        ensures
            r@ == value@,
    {
        FormulaId(value)
    }

    /// The identifier as a string slice.
    pub fn as_str(&self) -> (r: &str)
        ensures
            r@ == self@,
    {
        self.0.as_str()
    }

    /// Unwraps into the underlying `String`.
    pub fn into_string(self) -> (r: String)
        ensures
            r@ == self@,
    {
        self.0
    }

    /// A copy of this id.
    pub fn duplicate(&self) -> (r: Self)
        ensures
            r == *self,
    {
        FormulaId(self.0.clone())
    }

    /// Whether two ids hold the same characters.
    pub fn same(&self, other: &Self) -> (r: bool)
        ensures
            r == (self@ == other@),
    {
        str_eq(self.0.as_str(), other.0.as_str())
    }
}

impl std::borrow::Borrow<str> for FormulaId {
    fn borrow(&self) -> (r: &str)
        ensures
            ({
                let s: &str = r;
                s@ == self@
            }),
    {
        self.0.as_str()
    }
}

impl AsRef<str> for FormulaId {
    fn as_ref(&self) -> (r: &str)
        ensures
            ({
                let s: &str = r;
                s@ == self@
            }),
    {
        self.0.as_str()
    }
}

/// A user-facing room label, e.g. `B101` or `dorm-2`. Unique within a
/// `BaseConfig`; not an upstream identifier.
#[derive(Debug, Clone, PartialEq, Eq, Hash, PartialOrd, Ord)]
pub struct RoomId(String);

impl View for RoomId {
    type V = Seq<char>;

    closed spec fn view(&self) -> Seq<char> {
        self.0@
    }
}

impl RoomId {
    /// Wraps an identifier.
    pub fn new(value: &str) -> (r: Self)
        ensures
            r@ == value@,
    {
        RoomId(value.to_owned())
    }

    /// Wraps an owned identifier.
    pub fn from_string(value: String) -> (r: Self)
        ensures
            r@ == value@,
    {
        RoomId(value)
    }

    /// The identifier as a string slice.
    pub fn as_str(&self) -> (r: &str)
        ensures
            r@ == self@,
    {
        self.0.as_str()
    }

    /// Unwraps into the underlying `String`.
    pub fn into_string(self) -> (r: String)
        ensures
            r@ == self@,
    {
        self.0
    }

    /// A copy of this id.
    pub fn duplicate(&self) -> (r: Self)
        ensures
            r == *self,
    {
        RoomId(self.0.clone())
    }

    /// Whether two ids hold the same characters.
    pub fn same(&self, other: &Self) -> (r: bool)
        ensures
            r == (self@ == other@),
    {
        str_eq(self.0.as_str(), other.0.as_str())
    }
}

impl std::borrow::Borrow<str> for RoomId {
    fn borrow(&self) -> (r: &str)
        ensures
            ({
                let s: &str = r;
                s@ == self@
            }),
    {
        self.0.as_str()
    }
}

impl AsRef<str> for RoomId {
    fn as_ref(&self) -> (r: &str)
        ensures
            ({
                let s: &str = r;
                s@ == self@
            }),
    {
        self.0.as_str()
    }
}

} // verus!
