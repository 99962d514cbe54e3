//! What a base skill's efficiency metadata targets.

use vstd::prelude::*;
use crate::enums::{ProductType, Profession, UnknownVariant};

verus! {

/// What a skill's efficiency metadata targets: a product family (Factory,
/// Workshop) or an operator class (Training Room).
#[derive(Debug, Clone, Copy, PartialEq, Eq, Hash, Structural)]
pub enum EfficiencyTarget {
    /// A product family such as `F_GOLD`.
    Product(ProductType),
    /// An operator class such as `WARRIOR`.
    Profession(Profession),
}

/// What parsing `s` gives: a product family if one has that string, else
/// an operator class if one has it, else `UnknownVariant` holding `s`.
pub open spec fn parse_outcome(s: Seq<char>, r: Result<EfficiencyTarget, UnknownVariant>) -> bool {
    match r {
        Ok(EfficiencyTarget::Product(p)) => p.spec_str() == s,
        Ok(EfficiencyTarget::Profession(p)) => p.spec_str() == s && (forall|q: ProductType|
            q.spec_str() != s),
        Err(e) => (forall|q: ProductType| q.spec_str() != s) && (forall|q: Profession|
            q.spec_str() != s) && e.value@ == s && e.enum_name@ == "EfficiencyTarget"@,
    }
}

/// Every product family's string starts with `F`.
proof fn lemma_product_initial(p: ProductType)
    ensures
        p.spec_str().len() > 0 && p.spec_str()[0] == 'F',
{
    reveal_strlit("F_GOLD");
    reveal_strlit("F_EXP");
    reveal_strlit("F_DIAMOND");
    reveal_strlit("F_BUILDING");
    reveal_strlit("F_EVOLVE");
    reveal_strlit("F_SKILL");
    reveal_strlit("F_ASC");
}

/// No operator class's string starts with `F`.
proof fn lemma_profession_initial(p: Profession)
    ensures
        p.spec_str().len() > 0 && p.spec_str()[0] != 'F',
{
    reveal_strlit("PIONEER");
    reveal_strlit("WARRIOR");
    reveal_strlit("TANK");
    reveal_strlit("SNIPER");
    reveal_strlit("CASTER");
    reveal_strlit("MEDIC");
    reveal_strlit("SUPPORT");
    reveal_strlit("SPECIAL");
}

/// Parsing a target's string gives the target back: product and class
/// strings never coincide, and within each kind no two strings do.
pub proof fn law_efficiency_round_trip(t: EfficiencyTarget, r: Result<EfficiencyTarget, UnknownVariant>)
    requires
        parse_outcome(t.spec_str(), r),
    ensures
        r == Ok::<EfficiencyTarget, UnknownVariant>(t),
{
    match t {
        EfficiencyTarget::Product(p) => {
            lemma_product_initial(p);
            match r {
                Ok(EfficiencyTarget::Product(q)) => {
                    ProductType::lemma_str_injective(p, q);
                },
                Ok(EfficiencyTarget::Profession(q)) => {
                    lemma_profession_initial(q);
                },
                Err(_) => {},
            }
        },
        EfficiencyTarget::Profession(p) => {
            lemma_profession_initial(p);
            match r {
                Ok(EfficiencyTarget::Product(q)) => {
                    lemma_product_initial(q);
                },
                Ok(EfficiencyTarget::Profession(q)) => {
                    Profession::lemma_str_injective(p, q);
                },
                Err(_) => {
                    assert(p.spec_str() != t.spec_str());
                },
            }
        },
    }
}

impl EfficiencyTarget {
    /// The upstream string.
    pub open spec fn spec_str(self) -> Seq<char> {
        match self {
            EfficiencyTarget::Product(p) => p.spec_str(),
            EfficiencyTarget::Profession(p) => p.spec_str(),
        }
    }

    /// The upstream string.
    pub fn as_str(self) -> (r: &'static str)
        ensures
            r@ == self.spec_str(),
    {
        match self {
            EfficiencyTarget::Product(p) => p.as_str(),
            EfficiencyTarget::Profession(p) => p.as_str(),
        }
    }

    /// Parses an upstream string: a product family if it names one, else an
    /// operator class if it names one, else `UnknownVariant`.
    pub fn parse_str(s: &str) -> (r: Result<EfficiencyTarget, UnknownVariant>)
        ensures
            parse_outcome(s@, r),
    {
        match ProductType::parse_str(s) {
            Ok(p) => {
                return Ok(EfficiencyTarget::Product(p));
            },
            Err(_) => {},
        }
        match Profession::parse_str(s) {
            Ok(p) => {
                return Ok(EfficiencyTarget::Profession(p));
            },
            Err(_) => {},
        }
        Err(UnknownVariant { enum_name: "EfficiencyTarget", value: s.to_owned() })
    }
}

impl std::str::FromStr for EfficiencyTarget {
    type Err = UnknownVariant;

    fn from_str(s: &str) -> (r: Result<EfficiencyTarget, UnknownVariant>)
        ensures
            parse_outcome(s@, r),
    {
        Self::parse_str(s)
    }
}

} // verus!
