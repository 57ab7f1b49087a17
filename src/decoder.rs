use vstd::prelude::*;
use crate::args::{all_hex, decode_hex_arg, hex_spells, parse_seed, valid_seed};
use crate::cursor::ByteCursor;
use crate::rng::draw_sequence;
use crate::error::Error;
use crate::offset::{offset_spec, resolve_offset};
use crate::pool::{resolve_pool, resolve_spec};
use crate::schema::{DNA, Trait, TraitField, TraitGroup, TraitValue};

verus! {

/// The draw a mutant field at draw index `i` receives; none past the end of
/// the supplied draws, where it reads as zero.
pub open spec fn draw_at(draws: Seq<u64>, i: int) -> u64 {
    if 0 <= i < draws.len() {
        draws[i]
    } else {
        0
    }
}

/// The draw index after a field: one further for a mutant pool, while
/// draws remain.
pub open spec fn next_draw(draws: Seq<u64>, i: int, mutant: bool) -> int {
    if mutant && i < draws.len() {
        i + 1
    } else {
        i
    }
}

/// Decodes one field read at `pos`, with draw index `di`: the trait, the
/// position after it and the next draw index.
pub open spec fn field_spec(dna: Seq<u8>, pos: int, f: TraitField, draws: Seq<u64>, di: int) -> Result<
    (TraitValue, int, int),
    Error,
> {
    let n = f.byte_length as int;
    if pos + n > dna.len() {
        Err(Error::InsufficientDNABytes)
    } else {
        match offset_spec(dna.subrange(pos, pos + n)) {
            Err(e) => Err(e),
            Ok(off) => match f.pool {
                None => Ok((TraitValue::Number(off as int), pos + n, di)),
                Some(p) => match resolve_spec(off, p, draw_at(draws, di)) {
                    Err(e) => Err(e),
                    Ok(t) => Ok((t, pos + n, next_draw(draws, di, p.spec_is_mutant()))),
                },
            },
        }
    }
}

/// Decodes a sequence of fields in order, stopping at the first error.
pub open spec fn fields_spec(
    dna: Seq<u8>,
    pos: int,
    fields: Seq<TraitField>,
    draws: Seq<u64>,
    di: int,
) -> Result<(Seq<TraitValue>, int, int), Error>
    decreases fields.len(),
{
    if fields.len() == 0 {
        Ok((seq![], pos, di))
    } else {
        match fields_spec(dna, pos, fields.drop_last(), draws, di) {
            Err(e) => Err(e),
            Ok((ts, p, d)) => match field_spec(dna, p, fields.last(), draws, d) {
                Err(e) => Err(e),
                Ok((t, p2, d2)) => Ok((ts.push(t), p2, d2)),
            },
        }
    }
}

/// Decodes a sequence of groups in order, stopping at the first error.
pub open spec fn groups_spec(dna: Seq<u8>, groups: Seq<TraitGroup>, draws: Seq<u64>) -> Result<
    (Seq<(Seq<char>, Seq<TraitValue>)>, int, int),
    Error,
>
    decreases groups.len(),
{
    if groups.len() == 0 {
        Ok((seq![], 0, 0))
    } else {
        match groups_spec(dna, groups.drop_last(), draws) {
            Err(e) => Err(e),
            Ok((gs, p, d)) => match fields_spec(dna, p, groups.last().fields@, draws, d) {
                Err(e) => Err(e),
                Ok((ts, p2, d2)) => Ok((gs.push((groups.last().name@, ts)), p2, d2)),
            },
        }
    }
}

/// The decoded groups, in schema order, or the first error met.
pub open spec fn decode_spec(dna: Seq<u8>, groups: Seq<TraitGroup>, draws: Seq<u64>) -> Result<
    Seq<(Seq<char>, Seq<TraitValue>)>,
    Error,
> {
    match groups_spec(dna, groups, draws) {
        Err(e) => Err(e),
        Ok((gs, _, _)) => Ok(gs),
    }
}

/// `r` is the outcome that `expected` describes: the same error, or decoded
/// groups whose views are the expected ones.
pub open spec fn decoded_as(
    r: Result<Vec<DNA>, Error>,
    expected: Result<Seq<(Seq<char>, Seq<TraitValue>)>, Error>,
) -> bool {
    match expected {
        Ok(gs) => r is Ok && groups_view(r->Ok_0@) == gs,
        Err(e) => r is Err && r->Err_0 == e,
    }
}

pub open spec fn traits_view(v: Seq<Trait>) -> Seq<TraitValue> {
    v.map_values(|t: Trait| t@)
}

pub open spec fn groups_view(v: Seq<DNA>) -> Seq<(Seq<char>, Seq<TraitValue>)> {
    v.map_values(|g: DNA| g@)
}

pub proof fn lemma_fields_err(
    dna: Seq<u8>,
    pos: int,
    fields: Seq<TraitField>,
    draws: Seq<u64>,
    di: int,
    i: int,
)
    requires
        0 <= i <= fields.len(),
        fields_spec(dna, pos, fields.take(i), draws, di) is Err,
    ensures
        fields_spec(dna, pos, fields, draws, di) == fields_spec(dna, pos, fields.take(i), draws, di),
    decreases fields.len(),
{
    if i == fields.len() {
        assert(fields.take(i) =~= fields);
    } else {
        assert(fields.drop_last().take(i) =~= fields.take(i));
        lemma_fields_err(dna, pos, fields.drop_last(), draws, di, i);
    }
}

pub proof fn lemma_groups_err(dna: Seq<u8>, groups: Seq<TraitGroup>, draws: Seq<u64>, i: int)
    requires
        0 <= i <= groups.len(),
        groups_spec(dna, groups.take(i), draws) is Err,
    ensures
        groups_spec(dna, groups, draws) == groups_spec(dna, groups.take(i), draws),
    decreases groups.len(),
{
    if i == groups.len() {
        assert(groups.take(i) =~= groups);
    } else {
        assert(groups.drop_last().take(i) =~= groups.take(i));
        lemma_groups_err(dna, groups.drop_last(), draws, i);
    }
}

fn decode_field(cursor: &mut ByteCursor, field: &TraitField, draws: &Vec<u64>, di: usize) -> (r:
    Result<(Trait, usize), Error>)
    requires
        old(cursor).wf(),
        di <= draws@.len(),
    ensures
        final(cursor).wf(),
        final(cursor).bytes() == old(cursor).bytes(),
        r is Ok ==> r->Ok_0.1 <= draws@.len(),
        match field_spec(old(cursor).bytes(), old(cursor).position(), *field, draws@, di as int) {
            Ok((t, p, d)) => r is Ok && r->Ok_0.0@ == t && final(cursor).position() == p
                && r->Ok_0.1 == d,
            Err(e) => r is Err && r->Err_0 == e,
        },
{
    let seg = cursor.take(field.byte_length as usize)?;
    let offset = resolve_offset(seg.as_slice())?;
    match &field.pool {
        None => Ok((Trait::Number(offset), di)),
        Some(pool) => {
            let draw = if di < draws.len() {
                draws[di]
            } else {
                0
            };
            let t = resolve_pool(offset, pool, draw)?;
            let next = if pool.is_mutant() && di < draws.len() {
                di + 1
            } else {
                di
            };
            Ok((t, next))
        },
    }
}

fn decode_fields(cursor: &mut ByteCursor, fields: &Vec<TraitField>, draws: &Vec<u64>, di: usize) -> (r:
    Result<(Vec<Trait>, usize), Error>)
    requires
        old(cursor).wf(),
        di <= draws@.len(),
    ensures
        final(cursor).wf(),
        final(cursor).bytes() == old(cursor).bytes(),
        r is Ok ==> r->Ok_0.1 <= draws@.len(),
        match fields_spec(old(cursor).bytes(), old(cursor).position(), fields@, draws@, di as int) {
            Ok((ts, p, d)) => r is Ok && traits_view(r->Ok_0.0@) == ts && final(cursor).position()
                == p && r->Ok_0.1 == d,
            Err(e) => r is Err && r->Err_0 == e,
        },
{
    let ghost dna = cursor.bytes();
    let ghost pos0 = cursor.position();
    let mut traits: Vec<Trait> = Vec::new();
    let mut d = di;
    let mut i: usize = 0;
    assert(fields@.take(0) =~= Seq::<TraitField>::empty());
    assert(traits_view(traits@) =~= Seq::<TraitValue>::empty());
    while i < fields.len()
        invariant
            cursor.wf(),
            cursor.bytes() == dna,
            dna == old(cursor).bytes(),
            pos0 == old(cursor).position(),
            i <= fields@.len(),
            d <= draws@.len(),
            fields_spec(dna, pos0, fields@.take(i as int), draws@, di as int) == Ok::<
                (Seq<TraitValue>, int, int),
                Error,
            >((traits_view(traits@), cursor.position(), d as int)),
        decreases fields.len() - i,
    {
        assert(fields@.take(i + 1).drop_last() =~= fields@.take(i as int));
        assert(fields@.take(i + 1).last() == fields@[i as int]);
        let ghost p = cursor.position();
        let ghost prev = traits@;
        let step = decode_field(cursor, &fields[i], draws, d);
        match step {
            Err(e) => {
                assert(fields_spec(dna, pos0, fields@.take(i + 1), draws@, di as int) == Err::<
                    (Seq<TraitValue>, int, int),
                    Error,
                >(e));
                proof {
                    lemma_fields_err(dna, pos0, fields@, draws@, di as int, i + 1);
                }
                return Err(e);
            },
            Ok((t, nd)) => {
                let ghost tv = t@;
                traits.push(t);
                assert(traits@ =~= prev.push(t));
                assert(traits_view(traits@) =~= traits_view(prev).push(tv));
                d = nd;
                i = i + 1;
            },
        }
    }
    assert(fields@.take(i as int) =~= fields@);
    Ok((traits, d))
}

/// Decodes `dna` against `schema`. The k-th mutant field, in group-then-field
/// order, receives `draws[k]` (zero once the draws run out). On success
/// there is one decoded group per schema group, in schema order; otherwise
/// the first error met.
pub fn decode_traits(dna: &[u8], schema: &Vec<TraitGroup>, draws: &Vec<u64>) -> (r: Result<
    Vec<DNA>,
    Error,
>)
    ensures
        decoded_as(r, decode_spec(dna@, schema@, draws@)),
{
    let mut cursor = ByteCursor::new(dna);
    let mut result: Vec<DNA> = Vec::new();
    let mut d: usize = 0;
    let mut g: usize = 0;
    assert(schema@.take(0) =~= Seq::<TraitGroup>::empty());
    assert(groups_view(result@) =~= Seq::<(Seq<char>, Seq<TraitValue>)>::empty());
    while g < schema.len()
        invariant
            cursor.wf(),
            cursor.bytes() == dna@,
            g <= schema@.len(),
            d <= draws@.len(),
            groups_spec(dna@, schema@.take(g as int), draws@) == Ok::<
                (Seq<(Seq<char>, Seq<TraitValue>)>, int, int),
                Error,
            >((groups_view(result@), cursor.position(), d as int)),
        decreases schema.len() - g,
    {
        assert(schema@.take(g + 1).drop_last() =~= schema@.take(g as int));
        assert(schema@.take(g + 1).last() == schema@[g as int]);
        let group = &schema[g];
        let ghost prev = result@;
        match decode_fields(&mut cursor, &group.fields, draws, d) {
            Err(e) => {
                assert(groups_spec(dna@, schema@.take(g + 1), draws@) == Err::<
                    (Seq<(Seq<char>, Seq<TraitValue>)>, int, int),
                    Error,
                >(e));
                proof {
                    lemma_groups_err(dna@, schema@, draws@, g + 1);
                }
                return Err(e);
            },
            Ok((traits, nd)) => {
                let item = DNA { name: group.name.clone(), traits };
                let ghost iv = item@;
                result.push(item);
                assert(result@ =~= prev.push(item));
                assert(groups_view(result@) =~= groups_view(prev).push(iv));
                d = nd;
                g = g + 1;
            },
        }
    }
    assert(schema@.take(g as int) =~= schema@);
    Ok(result)
}

pub open spec fn is_mutant_field(f: TraitField) -> bool {
    f.pool is Some && f.pool->Some_0.spec_is_mutant()
}

/// How many fields in `fields` draw from the generator.
pub open spec fn field_mutants(fields: Seq<TraitField>) -> int
    decreases fields.len(),
{
    if fields.len() == 0 {
        0
    } else {
        field_mutants(fields.drop_last()) + if is_mutant_field(fields.last()) {
            1int
        } else {
            0int
        }
    }
}

/// How many fields of the whole schema draw from the generator.
pub open spec fn schema_mutants(groups: Seq<TraitGroup>) -> int
    decreases groups.len(),
{
    if groups.len() == 0 {
        0
    } else {
        schema_mutants(groups.drop_last()) + field_mutants(groups.last().fields@)
    }
}

pub open spec fn capped(n: int) -> int {
    if n > usize::MAX {
        usize::MAX as int
    } else {
        n
    }
}

/// The number of draws a decode of `schema` can use, capped at the largest
/// `usize`.
pub fn mutant_count(schema: &Vec<TraitGroup>) -> (r: usize)
    ensures
        r as int == capped(schema_mutants(schema@)),
{
    let mut total: usize = 0;
    let mut g: usize = 0;
    assert(schema@.take(0) =~= Seq::<TraitGroup>::empty());
    while g < schema.len()
        invariant
            g <= schema@.len(),
            total as int == capped(schema_mutants(schema@.take(g as int))),
            schema_mutants(schema@.take(g as int)) >= 0,
        decreases schema.len() - g,
    {
        assert(schema@.take(g + 1).drop_last() =~= schema@.take(g as int));
        let fields = &schema[g].fields;
        let ghost before = schema_mutants(schema@.take(g as int));
        let mut i: usize = 0;
        assert(fields@.take(0) =~= Seq::<TraitField>::empty());
        while i < fields.len()
            invariant
                i <= fields@.len(),
                fields == &schema@[g as int].fields,
                field_mutants(fields@.take(i as int)) >= 0,
                total as int == capped(before + field_mutants(fields@.take(i as int))),
            decreases fields.len() - i,
        {
            assert(fields@.take(i + 1).drop_last() =~= fields@.take(i as int));
            let mutant = match &fields[i].pool {
                Some(p) => p.is_mutant(),
                None => false,
            };
            if mutant && total < usize::MAX {
                total = total + 1;
            }
            i = i + 1;
        }
        assert(fields@.take(i as int) =~= fields@);
        g = g + 1;
    }
    assert(schema@.take(g as int) =~= schema@);
    total
}

/// Decodes the DNA given as hex text against `schema`, with the mutant
/// draws taken from the generator seeded by the decimal text `seed_text`.
/// The hex text is checked first, then the seed; a decode error follows.
pub fn dobs_decode(dna_hex: &[u8], seed_text: &[u8], schema: &Vec<TraitGroup>) -> (r: Result<
    Vec<DNA>,
    Error,
>)
    ensures
        dna_hex@.len() % 2 != 0 ==> r == Err::<Vec<DNA>, Error>(Error::UnexpectedArgBytesLength),
        dna_hex@.len() % 2 == 0 && !all_hex(dna_hex@) ==> r == Err::<Vec<DNA>, Error>(
            Error::InvalidArgFormat,
        ),
        dna_hex@.len() % 2 == 0 && all_hex(dna_hex@) && !valid_seed(seed_text@) ==> r == Err::<Vec<DNA>, Error>(
            Error::InvalidArgFormat,
        ),
        dna_hex@.len() % 2 == 0 && all_hex(dna_hex@) && valid_seed(seed_text@) ==> exists|dna: Seq<u8>, draws: Seq<u64>|
            hex_spells(dna_hex@, dna) && draws.len() == capped(schema_mutants(schema@)) && decoded_as(
                r,
                decode_spec(dna, schema@, draws),
            ),
{
    let dna = decode_hex_arg(dna_hex)?;
    let seed = parse_seed(seed_text)?;
    let n = mutant_count(schema);
    let draws = draw_sequence(seed, n);
    let r = decode_traits(dna.as_slice(), schema, &draws);
    proof {
        assert(hex_spells(dna_hex@, dna@));
    }
    r
}

} // verus!
