use vstd::prelude::*;
use crate::error::Error;
use crate::schema::{Trait, TraitPool, TraitValue};

verus! {

/// The width a range selects over; a range whose bounds meet yields its
/// lower bound.
pub open spec fn span(lo: u64, hi: u64) -> int {
    if hi == lo {
        1
    } else {
        hi as int - lo as int
    }
}

/// The trait that an offset selects from a pool, given the draw that a
/// mutant pool adds to it.
pub open spec fn resolve_spec(offset: u64, pool: TraitPool, draw: u64) -> Result<TraitValue, Error> {
    match pool {
        TraitPool::StringSet(v) => if v@.len() == 0 {
            Err(Error::InvalidDNASetSchema)
        } else {
            Ok(TraitValue::Text(v@[(offset as int) % (v@.len() as int)]@))
        },
        TraitPool::NumberSet(v) => if v@.len() == 0 {
            Err(Error::InvalidDNASetSchema)
        } else {
            Ok(TraitValue::Number(v@[(offset as int) % (v@.len() as int)] as int))
        },
        TraitPool::FloatSet(v, d) => if v@.len() == 0 {
            Err(Error::InvalidDNASetSchema)
        } else {
            Ok(TraitValue::Ratio(v@[(offset as int) % (v@.len() as int)] as int, d as int))
        },
        TraitPool::MutantSet(v) => if v@.len() == 0 {
            Err(Error::InvalidDNASetSchema)
        } else {
            Ok(TraitValue::Number(v@[shifted(offset, draw) % (v@.len() as int)] as int))
        },
        TraitPool::NumberRange(lo, hi) => if hi < lo {
            Err(Error::InvalidDNARangeSchema)
        } else {
            Ok(TraitValue::Number(lo as int + (offset as int) % span(lo, hi)))
        },
        TraitPool::FloatRange(lo, hi, d) => if hi < lo {
            Err(Error::InvalidDNARangeSchema)
        } else {
            Ok(TraitValue::Ratio(lo as int + (offset as int) % span(lo, hi), d as int))
        },
        TraitPool::MutantRange(lo, hi) => if hi < lo {
            Err(Error::InvalidDNARangeSchema)
        } else {
            Ok(TraitValue::Number(lo as int + shifted(offset, draw) % span(lo, hi)))
        },
    }
}

/// The offset a draw shifts it to: their sum, wrapped at 64 bits.
pub open spec fn shifted(offset: u64, draw: u64) -> int {
    if offset as int + draw as int > u64::MAX {
        offset as int + draw as int - 0x1_0000_0000_0000_0000
    } else {
        offset as int + draw as int
    }
}

/// Adds a draw to an offset, wrapping at 64 bits.
pub fn shift(offset: u64, draw: u64) -> (r: u64)
    ensures
        r as int == shifted(offset, draw),
{
    offset.wrapping_add(draw)
}

/// The position in a pool of `len` entries that an offset, shifted by
/// `draw`, selects.
pub fn pool_index(offset: u64, draw: u64, len: usize) -> (r: usize)
    requires
        len > 0,
    ensures
        r < len,
        r as int == shifted(offset, draw) % (len as int),
{
    (shift(offset, draw) % (len as u64)) as usize
}

/// The value an offset, shifted by `draw`, selects from the range starting
/// at `lo`; it stays below `hi` unless the bounds meet.
pub fn range_value(offset: u64, draw: u64, lo: u64, hi: u64) -> (r: u64)
    requires
        lo <= hi,
    ensures
        r as int == lo as int + shifted(offset, draw) % span(lo, hi),
        lo <= r,
        lo < hi ==> r < hi,
        lo == hi ==> r == lo,
{
    let w: u64 = if hi == lo {
        1
    } else {
        hi - lo
    };
    lo + shift(offset, draw) % w
}

/// Selects or computes the trait that `offset` stands for in `pool`. A
/// mutant pool adds `draw` to the offset first; the other kinds ignore it.
pub fn resolve_pool(offset: u64, pool: &TraitPool, draw: u64) -> (r: Result<Trait, Error>)
    ensures
        r is Ok <==> resolve_spec(offset, *pool, draw) is Ok,
        r is Ok ==> r->Ok_0@ == resolve_spec(offset, *pool, draw)->Ok_0,
        r is Err ==> r->Err_0 == resolve_spec(offset, *pool, draw)->Err_0,
{
    match pool {
        TraitPool::StringSet(v) => {
            if v.len() == 0 {
                return Err(Error::InvalidDNASetSchema);
            }
            let i = pool_index(offset, 0, v.len());
            Ok(Trait::String(v[i].clone()))
        },
        TraitPool::NumberSet(v) => {
            if v.len() == 0 {
                return Err(Error::InvalidDNASetSchema);
            }
            let i = pool_index(offset, 0, v.len());
            Ok(Trait::Number(v[i]))
        },
        TraitPool::FloatSet(v, d) => {
            if v.len() == 0 {
                return Err(Error::InvalidDNASetSchema);
            }
            let i = pool_index(offset, 0, v.len());
            Ok(Trait::Float(v[i], *d))
        },
        TraitPool::MutantSet(v) => {
            if v.len() == 0 {
                return Err(Error::InvalidDNASetSchema);
            }
            let i = pool_index(offset, draw, v.len());
            Ok(Trait::Number(v[i]))
        },
        TraitPool::NumberRange(lo, hi) => {
            if *hi < *lo {
                return Err(Error::InvalidDNARangeSchema);
            }
            Ok(Trait::Number(range_value(offset, 0, *lo, *hi)))
        },
        TraitPool::FloatRange(lo, hi, d) => {
            if *hi < *lo {
                return Err(Error::InvalidDNARangeSchema);
            }
            Ok(Trait::Float(range_value(offset, 0, *lo, *hi), *d))
        },
        TraitPool::MutantRange(lo, hi) => {
            if *hi < *lo {
                return Err(Error::InvalidDNARangeSchema);
            }
            Ok(Trait::Number(range_value(offset, draw, *lo, *hi)))
        },
    }
}

} // verus!
