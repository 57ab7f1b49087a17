use vstd::prelude::*;

verus! {

/// The values a field can select from.
pub enum TraitPool {
    StringSet(Vec<String>),
    NumberSet(Vec<u64>),
    /// Numerators, and the denominator they share.
    FloatSet(Vec<u64>, u64),
    /// A number set whose selection is shifted by a pseudo-random draw.
    MutantSet(Vec<u64>),
    /// Lower bound and upper bound.
    NumberRange(u64, u64),
    /// Lower and upper bound of the numerator, and the denominator.
    FloatRange(u64, u64, u64),
    /// A number range whose selection is shifted by a pseudo-random draw.
    MutantRange(u64, u64),
}

/// One schema entry: how many DNA bytes to read, and what to map them onto.
pub struct TraitField {
    pub byte_length: u8,
    pub pool: Option<TraitPool>,
}

/// A named, ordered collection of fields.
pub struct TraitGroup {
    pub name: String,
    pub fields: Vec<TraitField>,
}

/// A decoded trait. A fraction is kept as numerator and denominator.
#[derive(Debug, PartialEq, Eq)]
pub enum Trait {
    String(String),
    Number(u64),
    Float(u64, u64),
}

/// What a decoded trait stands for.
pub enum TraitValue {
    Text(Seq<char>),
    Number(int),
    Ratio(int, int),
}

impl View for Trait {
    type V = TraitValue;

    open spec fn view(&self) -> TraitValue {
        match self {
            Trait::String(s) => TraitValue::Text(s@),
            Trait::Number(n) => TraitValue::Number(*n as int),
            Trait::Float(n, d) => TraitValue::Ratio(*n as int, *d as int),
        }
    }
}

/// The decoded traits of one group, under the group's name.
#[derive(Debug, PartialEq, Eq)]
pub struct DNA {
    pub name: String,
    pub traits: Vec<Trait>,
}

impl View for DNA {
    type V = (Seq<char>, Seq<TraitValue>);

    open spec fn view(&self) -> (Seq<char>, Seq<TraitValue>) {
        (self.name@, self.traits@.map_values(|t: Trait| t@))
    }
}

impl TraitPool {
    /// Whether resolving this pool consumes a pseudo-random draw.
    pub open spec fn spec_is_mutant(&self) -> bool {
        self is MutantSet || self is MutantRange
    }

    pub fn is_mutant(&self) -> (r: bool)
        ensures
            r == self.spec_is_mutant(),
    {
        match self {
            TraitPool::MutantSet(_) | TraitPool::MutantRange(_, _) => true,
            _ => false,
        }
    }
}

} // verus!
