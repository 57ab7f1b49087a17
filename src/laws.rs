use vstd::prelude::*;
use crate::decoder::{
    decode_spec, decoded_as, draw_at, field_mutants, field_spec, fields_spec, groups_spec,
    groups_view, is_mutant_field, lemma_fields_err, lemma_groups_err, schema_mutants,
};
use crate::error::Error;
use crate::offset::{offset_spec, valid_byte_length};
use crate::pool::resolve_spec;
use crate::schema::{DNA, TraitField, TraitGroup, TraitPool, TraitValue};

verus! {

/// The DNA bytes a sequence of fields reads.
pub open spec fn fields_bytes(fields: Seq<TraitField>) -> int
    decreases fields.len(),
{
    if fields.len() == 0 {
        0
    } else {
        fields_bytes(fields.drop_last()) + fields.last().byte_length as int
    }
}

/// The DNA bytes a whole schema reads.
pub open spec fn schema_bytes(groups: Seq<TraitGroup>) -> int
    decreases groups.len(),
{
    if groups.len() == 0 {
        0
    } else {
        schema_bytes(groups.drop_last()) + fields_bytes(groups.last().fields@)
    }
}

proof fn lemma_fields_bytes_nonneg(fields: Seq<TraitField>)
    ensures
        fields_bytes(fields) >= 0,
    decreases fields.len(),
{
    if fields.len() > 0 {
        lemma_fields_bytes_nonneg(fields.drop_last());
    }
}

proof fn lemma_schema_bytes_nonneg(groups: Seq<TraitGroup>)
    ensures
        schema_bytes(groups) >= 0,
    decreases groups.len(),
{
    if groups.len() > 0 {
        lemma_schema_bytes_nonneg(groups.drop_last());
        lemma_fields_bytes_nonneg(groups.last().fields@);
    }
}

/// A pool that can never be rejected: its set is non-empty, or its bounds
/// are ordered.
pub open spec fn pool_well_formed(p: TraitPool) -> bool {
    match p {
        TraitPool::StringSet(v) => v@.len() > 0,
        TraitPool::NumberSet(v) => v@.len() > 0,
        TraitPool::FloatSet(v, _) => v@.len() > 0,
        TraitPool::MutantSet(v) => v@.len() > 0,
        TraitPool::NumberRange(lo, hi) => lo <= hi,
        TraitPool::FloatRange(lo, hi, _) => lo <= hi,
        TraitPool::MutantRange(lo, hi) => lo <= hi,
    }
}

pub open spec fn field_well_formed(f: TraitField) -> bool {
    &&& valid_byte_length(f.byte_length as int)
    &&& (f.pool is Some ==> pool_well_formed(f.pool->Some_0))
}

pub open spec fn schema_well_formed(groups: Seq<TraitGroup>) -> bool {
    forall|g: int, i: int|
        0 <= g < groups.len() && 0 <= i < groups[g].fields@.len() ==> field_well_formed(
            #[trigger] groups[g].fields@[i],
        )
}

/// Each field reads exactly its byte length: a successful run over fields
/// ends exactly their total length past where it began.
pub proof fn law_fields_consume_exactly(
    dna: Seq<u8>,
    pos: int,
    fields: Seq<TraitField>,
    draws: Seq<u64>,
    di: int,
)
    requires
        fields_spec(dna, pos, fields, draws, di) is Ok,
    ensures
        fields_spec(dna, pos, fields, draws, di)->Ok_0.1 == pos + fields_bytes(fields),
    decreases fields.len(),
{
    if fields.len() > 0 {
        law_fields_consume_exactly(dna, pos, fields.drop_last(), draws, di);
    }
}

/// A successful decode reads exactly as many DNA bytes as the schema's
/// fields declare, from the front; bytes past that are left unread.
pub proof fn law_exact_consumption(dna: Seq<u8>, groups: Seq<TraitGroup>, draws: Seq<u64>)
    requires
        groups_spec(dna, groups, draws) is Ok,
    ensures
        groups_spec(dna, groups, draws)->Ok_0.1 == schema_bytes(groups),
        schema_bytes(groups) <= dna.len(),
    decreases groups.len(),
{
    if groups.len() > 0 {
        law_exact_consumption(dna, groups.drop_last(), draws);
        let (_, p, d) = groups_spec(dna, groups.drop_last(), draws)->Ok_0;
        law_fields_consume_exactly(dna, p, groups.last().fields@, draws, d);
        lemma_fields_within(dna, p, groups.last().fields@, draws, d);
    }
}

proof fn lemma_fields_within(dna: Seq<u8>, pos: int, fields: Seq<TraitField>, draws: Seq<u64>, di: int)
    requires
        fields_spec(dna, pos, fields, draws, di) is Ok,
        pos <= dna.len(),
    ensures
        fields_spec(dna, pos, fields, draws, di)->Ok_0.1 <= dna.len(),
    decreases fields.len(),
{
    if fields.len() > 0 {
        lemma_fields_within(dna, pos, fields.drop_last(), draws, di);
    }
}

/// A range pool whose upper bound lies below its lower bound is always
/// rejected; one whose bounds meet always yields the lower bound.
pub proof fn law_range_validity(offset: u64, lo: u64, hi: u64, den: u64, draw: u64)
    ensures
        hi < lo ==> resolve_spec(offset, TraitPool::NumberRange(lo, hi), draw) == Err::<
            TraitValue,
            Error,
        >(Error::InvalidDNARangeSchema),
        hi < lo ==> resolve_spec(offset, TraitPool::FloatRange(lo, hi, den), draw) == Err::<
            TraitValue,
            Error,
        >(Error::InvalidDNARangeSchema),
        hi < lo ==> resolve_spec(offset, TraitPool::MutantRange(lo, hi), draw) == Err::<
            TraitValue,
            Error,
        >(Error::InvalidDNARangeSchema),
        hi == lo ==> resolve_spec(offset, TraitPool::NumberRange(lo, hi), draw) == Ok::<
            TraitValue,
            Error,
        >(TraitValue::Number(lo as int)),
        hi == lo ==> resolve_spec(offset, TraitPool::FloatRange(lo, hi, den), draw) == Ok::<
            TraitValue,
            Error,
        >(TraitValue::Ratio(lo as int, den as int)),
        hi == lo ==> resolve_spec(offset, TraitPool::MutantRange(lo, hi), draw) == Ok::<
            TraitValue,
            Error,
        >(TraitValue::Number(lo as int)),
{
}

proof fn lemma_fields_shortfall(
    dna: Seq<u8>,
    pos: int,
    fields: Seq<TraitField>,
    draws: Seq<u64>,
    di: int,
)
    requires
        0 <= pos <= dna.len(),
        forall|i: int| 0 <= i < fields.len() ==> field_well_formed(#[trigger] fields[i]),
    ensures
        pos + fields_bytes(fields) <= dna.len() ==> fields_spec(dna, pos, fields, draws, di) is Ok,
        pos + fields_bytes(fields) > dna.len() ==> fields_spec(dna, pos, fields, draws, di) == Err::<
            (Seq<TraitValue>, int, int),
            Error,
        >(Error::InsufficientDNABytes),
    decreases fields.len(),
{
    if fields.len() > 0 {
        let prefix = fields.drop_last();
        let f = fields.last();
        assert(field_well_formed(fields[fields.len() - 1]));
        lemma_fields_bytes_nonneg(prefix);
        lemma_fields_shortfall(dna, pos, prefix, draws, di);
        if fields_spec(dna, pos, prefix, draws, di) is Ok {
            law_fields_consume_exactly(dna, pos, prefix, draws, di);
            let (_, p, d) = fields_spec(dna, pos, prefix, draws, di)->Ok_0;
            if p + f.byte_length <= dna.len() {
                let seg = dna.subrange(p, p + f.byte_length as int);
                assert(seg.len() == f.byte_length as int);
                let off = crate::offset::offset_spec(seg);
                assert(off is Ok);
                if f.pool is Some {
                    assert(resolve_spec(off->Ok_0, f.pool->Some_0, draw_at(draws, d)) is Ok);
                }
                assert(field_spec(dna, p, f, draws, d) is Ok);
            } else {
                assert(field_spec(dna, p, f, draws, d) == Err::<(TraitValue, int, int), Error>(
                    Error::InsufficientDNABytes,
                ));
                assert(fields_spec(dna, pos, fields, draws, di) == Err::<
                    (Seq<TraitValue>, int, int),
                    Error,
                >(Error::InsufficientDNABytes));
            }
            assert(p == pos + fields_bytes(prefix));
        } else {
            assert(pos + fields_bytes(prefix) > dna.len());
            assert(fields_spec(dna, pos, fields, draws, di) == fields_spec(
                dna,
                pos,
                prefix,
                draws,
                di,
            ));
        }
        assert(fields_bytes(fields) == fields_bytes(prefix) + f.byte_length);
    }
}

/// On a schema whose fields can never be rejected, DNA shorter than the
/// bytes the schema reads always fails with `InsufficientDNABytes`.
pub proof fn law_insufficiency(dna: Seq<u8>, groups: Seq<TraitGroup>, draws: Seq<u64>)
    requires
        schema_well_formed(groups),
        dna.len() < schema_bytes(groups),
    ensures
        decode_spec(dna, groups, draws) == Err::<Seq<(Seq<char>, Seq<TraitValue>)>, Error>(
            Error::InsufficientDNABytes,
        ),
{
    lemma_groups_shortfall(dna, groups, draws);
}

proof fn lemma_groups_shortfall(dna: Seq<u8>, groups: Seq<TraitGroup>, draws: Seq<u64>)
    requires
        schema_well_formed(groups),
    ensures
        schema_bytes(groups) <= dna.len() ==> groups_spec(dna, groups, draws) is Ok,
        schema_bytes(groups) > dna.len() ==> groups_spec(dna, groups, draws) == Err::<
            (Seq<(Seq<char>, Seq<TraitValue>)>, int, int),
            Error,
        >(Error::InsufficientDNABytes),
    decreases groups.len(),
{
    if groups.len() > 0 {
        let prefix = groups.drop_last();
        assert(schema_well_formed(prefix)) by {
            assert forall|g: int, i: int|
                0 <= g < prefix.len() && 0 <= i < prefix[g].fields@.len() implies field_well_formed(
                #[trigger] prefix[g].fields@[i],
            ) by {
                assert(prefix[g] == groups[g]);
            }
        }
        lemma_groups_shortfall(dna, prefix, draws);
        let fs = groups.last().fields@;
        assert forall|i: int| 0 <= i < fs.len() implies field_well_formed(#[trigger] fs[i]) by {
            assert(groups[groups.len() - 1].fields@[i] == fs[i]);
        }
        lemma_schema_bytes_nonneg(prefix);
        lemma_fields_bytes_nonneg(fs);
        if groups_spec(dna, prefix, draws) is Ok {
            law_exact_consumption(dna, prefix, draws);
            let (_, p, d) = groups_spec(dna, prefix, draws)->Ok_0;
            lemma_fields_shortfall(dna, p, fs, draws, d);
        }
    }
}

/// Decoding is deterministic: two outcomes that both meet the decode
/// contract for the same DNA, schema and draws are the same outcome.
pub proof fn law_determinism(
    dna: Seq<u8>,
    groups: Seq<TraitGroup>,
    draws: Seq<u64>,
    r1: Result<Vec<DNA>, Error>,
    r2: Result<Vec<DNA>, Error>,
)
    requires
        decoded_as(r1, decode_spec(dna, groups, draws)),
        decoded_as(r2, decode_spec(dna, groups, draws)),
    ensures
        r1 is Ok <==> r2 is Ok,
        r1 is Ok ==> groups_view(r1->Ok_0@) == groups_view(r2->Ok_0@),
        r1 is Err ==> r1->Err_0 == r2->Err_0,
{
}

/// Draws go to mutant fields in field order: of two mutant fields, the
/// first receives the first draw and the second the next one, whichever
/// pools they hold.
pub proof fn law_draw_order(dna: Seq<u8>, f1: TraitField, f2: TraitField, draws: Seq<u64>)
    requires
        is_mutant_field(f1),
        is_mutant_field(f2),
        draws.len() >= 2,
        fields_spec(dna, 0, seq![f1, f2], draws, 0) is Ok,
    ensures
        ({
            let n1 = f1.byte_length as int;
            let n2 = f2.byte_length as int;
            fields_spec(dna, 0, seq![f1, f2], draws, 0)->Ok_0.0 == seq![
                resolve_spec(offset_spec(dna.subrange(0, n1))->Ok_0, f1.pool->Some_0, draws[0])->Ok_0,
                resolve_spec(
                    offset_spec(dna.subrange(n1, n1 + n2))->Ok_0,
                    f2.pool->Some_0,
                    draws[1],
                )->Ok_0,
            ]
        }),
{
    let both = seq![f1, f2];
    assert(both.drop_last() =~= seq![f1]);
    assert(seq![f1].drop_last() =~= Seq::<TraitField>::empty());
    let first = fields_spec(dna, 0, seq![f1], draws, 0);
    assert(first is Ok);
    assert(fields_spec(dna, 0, Seq::<TraitField>::empty(), draws, 0) == Ok::<
        (Seq<TraitValue>, int, int),
        Error,
    >((seq![], 0, 0)));
    let s1 = field_spec(dna, 0, f1, draws, 0);
    assert(s1 is Ok);
    assert(first->Ok_0.0 =~= seq![s1->Ok_0.0]);
    let n1 = f1.byte_length as int;
    assert(s1->Ok_0.1 == n1);
    assert(s1->Ok_0.2 == 1);
    assert(draw_at(draws, 0) == draws[0]);
    assert(draw_at(draws, 1) == draws[1]);
    let s2 = field_spec(dna, n1, f2, draws, 1);
    assert(s2 is Ok);
    assert(fields_spec(dna, 0, both, draws, 0)->Ok_0.0 =~= seq![s1->Ok_0.0, s2->Ok_0.0]);
}

/// The first field that fails decides the outcome: when the groups before
/// group `g` and the fields before field `k` of it decode, and field `k`
/// fails, the whole decode fails with that field's error.
pub proof fn law_first_field_error(
    dna: Seq<u8>,
    groups: Seq<TraitGroup>,
    draws: Seq<u64>,
    g: int,
    k: int,
)
    requires
        0 <= g < groups.len(),
        0 <= k < groups[g].fields@.len(),
        groups_spec(dna, groups.take(g), draws) is Ok,
        fields_spec(
            dna,
            groups_spec(dna, groups.take(g), draws)->Ok_0.1,
            groups[g].fields@.take(k),
            draws,
            groups_spec(dna, groups.take(g), draws)->Ok_0.2,
        ) is Ok,
        ({
            let (_, p, d) = groups_spec(dna, groups.take(g), draws)->Ok_0;
            let (_, q, e) = fields_spec(dna, p, groups[g].fields@.take(k), draws, d)->Ok_0;
            field_spec(dna, q, groups[g].fields@[k], draws, e) is Err
        }),
    ensures
        ({
            let (_, p, d) = groups_spec(dna, groups.take(g), draws)->Ok_0;
            let (_, q, e) = fields_spec(dna, p, groups[g].fields@.take(k), draws, d)->Ok_0;
            decode_spec(dna, groups, draws) == Err::<Seq<(Seq<char>, Seq<TraitValue>)>, Error>(
                field_spec(dna, q, groups[g].fields@[k], draws, e)->Err_0,
            )
        }),
{
    let (_, p, d) = groups_spec(dna, groups.take(g), draws)->Ok_0;
    let fs = groups[g].fields@;
    assert(fs.take(k + 1).drop_last() =~= fs.take(k));
    assert(fs.take(k + 1).last() == fs[k]);
    lemma_fields_err(dna, p, fs, draws, d, k + 1);
    assert(groups.take(g + 1).drop_last() =~= groups.take(g));
    assert(groups.take(g + 1).last() == groups[g]);
    lemma_groups_err(dna, groups, draws, g + 1);
}

/// A field whose bytes run past the end of the DNA fails with
/// `InsufficientDNABytes`, whatever its byte length and pool, when every
/// field before it decodes.
pub proof fn law_insufficient_field(
    dna: Seq<u8>,
    groups: Seq<TraitGroup>,
    draws: Seq<u64>,
    g: int,
    k: int,
)
    requires
        0 <= g < groups.len(),
        0 <= k < groups[g].fields@.len(),
        groups_spec(dna, groups.take(g), draws) is Ok,
        fields_spec(
            dna,
            groups_spec(dna, groups.take(g), draws)->Ok_0.1,
            groups[g].fields@.take(k),
            draws,
            groups_spec(dna, groups.take(g), draws)->Ok_0.2,
        ) is Ok,
        ({
            let (_, p, d) = groups_spec(dna, groups.take(g), draws)->Ok_0;
            let (_, q, e) = fields_spec(dna, p, groups[g].fields@.take(k), draws, d)->Ok_0;
            q + groups[g].fields@[k].byte_length > dna.len()
        }),
    ensures
        decode_spec(dna, groups, draws) == Err::<Seq<(Seq<char>, Seq<TraitValue>)>, Error>(
            Error::InsufficientDNABytes,
        ),
{
    law_first_field_error(dna, groups, draws, g, k);
}

/// A range pool with its upper bound below its lower bound fails the whole
/// decode with `InvalidDNARangeSchema`, whatever the offset, when every field
/// before it decodes and its own bytes and byte length are in order.
pub proof fn law_reversed_range_field(
    dna: Seq<u8>,
    groups: Seq<TraitGroup>,
    draws: Seq<u64>,
    g: int,
    k: int,
)
    requires
        0 <= g < groups.len(),
        0 <= k < groups[g].fields@.len(),
        valid_byte_length(groups[g].fields@[k].byte_length as int),
        groups[g].fields@[k].pool matches Some(p) && match p {
            TraitPool::NumberRange(lo, hi) => hi < lo,
            TraitPool::FloatRange(lo, hi, _) => hi < lo,
            TraitPool::MutantRange(lo, hi) => hi < lo,
            _ => false,
        },
        groups_spec(dna, groups.take(g), draws) is Ok,
        fields_spec(
            dna,
            groups_spec(dna, groups.take(g), draws)->Ok_0.1,
            groups[g].fields@.take(k),
            draws,
            groups_spec(dna, groups.take(g), draws)->Ok_0.2,
        ) is Ok,
        ({
            let (_, p, d) = groups_spec(dna, groups.take(g), draws)->Ok_0;
            let (_, q, e) = fields_spec(dna, p, groups[g].fields@.take(k), draws, d)->Ok_0;
            q + groups[g].fields@[k].byte_length <= dna.len()
        }),
    ensures
        decode_spec(dna, groups, draws) == Err::<Seq<(Seq<char>, Seq<TraitValue>)>, Error>(
            Error::InvalidDNARangeSchema,
        ),
{
    let (_, p, d) = groups_spec(dna, groups.take(g), draws)->Ok_0;
    let (_, q, e) = fields_spec(dna, p, groups[g].fields@.take(k), draws, d)->Ok_0;
    let f = groups[g].fields@[k];
    let seg = dna.subrange(q, q + f.byte_length as int);
    lemma_groups_within(dna, groups.take(g), draws);
    lemma_fields_within(dna, p, groups[g].fields@.take(k), draws, d);
    law_fields_consume_exactly(dna, p, groups[g].fields@.take(k), draws, d);
    lemma_fields_bytes_nonneg(groups[g].fields@.take(k));
    law_exact_consumption(dna, groups.take(g), draws);
    lemma_schema_bytes_nonneg(groups.take(g));
    assert(seg.len() == f.byte_length as int);
    law_first_field_error(dna, groups, draws, g, k);
}

proof fn lemma_groups_within(dna: Seq<u8>, groups: Seq<TraitGroup>, draws: Seq<u64>)
    requires
        groups_spec(dna, groups, draws) is Ok,
    ensures
        0 <= groups_spec(dna, groups, draws)->Ok_0.1 <= dna.len(),
{
    law_exact_consumption(dna, groups, draws);
    lemma_schema_bytes_nonneg(groups);
}

proof fn lemma_fields_extend(
    dna: Seq<u8>,
    extra: Seq<u8>,
    pos: int,
    fields: Seq<TraitField>,
    draws: Seq<u64>,
    di: int,
)
    requires
        0 <= pos <= dna.len(),
        fields_spec(dna, pos, fields, draws, di) is Ok,
    ensures
        fields_spec(dna + extra, pos, fields, draws, di) == fields_spec(dna, pos, fields, draws, di),
    decreases fields.len(),
{
    if fields.len() > 0 {
        let prefix = fields.drop_last();
        lemma_fields_extend(dna, extra, pos, prefix, draws, di);
        lemma_fields_within(dna, pos, prefix, draws, di);
        law_fields_consume_exactly(dna, pos, prefix, draws, di);
        lemma_fields_bytes_nonneg(prefix);
        let (_, p, d) = fields_spec(dna, pos, prefix, draws, di)->Ok_0;
        let n = fields.last().byte_length as int;
        assert((dna + extra).subrange(p, p + n) =~= dna.subrange(p, p + n));
        assert(field_spec(dna + extra, p, fields.last(), draws, d) == field_spec(
            dna,
            p,
            fields.last(),
            draws,
            d,
        ));
    }
}

proof fn lemma_groups_extend(dna: Seq<u8>, extra: Seq<u8>, groups: Seq<TraitGroup>, draws: Seq<u64>)
    requires
        groups_spec(dna, groups, draws) is Ok,
    ensures
        groups_spec(dna + extra, groups, draws) == groups_spec(dna, groups, draws),
        groups_spec(dna, groups, draws)->Ok_0.0.len() == groups.len(),
        forall|i: int|
            0 <= i < groups.len() ==> (#[trigger] groups_spec(dna, groups, draws)->Ok_0.0[i]).0
                == groups[i].name@,
    decreases groups.len(),
{
    if groups.len() > 0 {
        let prefix = groups.drop_last();
        lemma_groups_extend(dna, extra, prefix, draws);
        lemma_groups_within(dna, prefix, draws);
        let (gs, p, d) = groups_spec(dna, prefix, draws)->Ok_0;
        lemma_fields_extend(dna, extra, p, groups.last().fields@, draws, d);
        let all = groups_spec(dna, groups, draws)->Ok_0.0;
        assert forall|i: int| 0 <= i < groups.len() implies (#[trigger] all[i]).0
            == groups[i].name@ by {
            if i < groups.len() - 1 {
                assert(all[i] == gs[i]);
                assert(prefix[i] == groups[i]);
            }
        }
    }
}

/// A successful decode yields one group per schema group, in schema order
/// and under the schema's names, and reads only the bytes its fields need:
/// bytes appended to the DNA leave the outcome unchanged.
pub proof fn law_appended_bytes_ignored(
    dna: Seq<u8>,
    extra: Seq<u8>,
    groups: Seq<TraitGroup>,
    draws: Seq<u64>,
)
    requires
        decode_spec(dna, groups, draws) is Ok,
    ensures
        decode_spec(dna + extra, groups, draws) == decode_spec(dna, groups, draws),
        decode_spec(dna, groups, draws)->Ok_0.len() == groups.len(),
        forall|i: int|
            0 <= i < groups.len() ==> (#[trigger] decode_spec(dna, groups, draws)->Ok_0[i]).0
                == groups[i].name@,
{
    lemma_groups_extend(dna, extra, groups, draws);
}

proof fn lemma_field_mutants_nonneg(fields: Seq<TraitField>)
    ensures
        field_mutants(fields) >= 0,
    decreases fields.len(),
{
    if fields.len() > 0 {
        lemma_field_mutants_nonneg(fields.drop_last());
    }
}

proof fn lemma_schema_mutants_nonneg(groups: Seq<TraitGroup>)
    ensures
        schema_mutants(groups) >= 0,
    decreases groups.len(),
{
    if groups.len() > 0 {
        lemma_schema_mutants_nonneg(groups.drop_last());
        lemma_field_mutants_nonneg(groups.last().fields@);
    }
}

/// Each mutant field takes exactly one draw and every other field none: a
/// successful run over fields moves the draw index on by the number of
/// mutant fields, while the draws last.
pub proof fn law_fields_draw_count(
    dna: Seq<u8>,
    pos: int,
    fields: Seq<TraitField>,
    draws: Seq<u64>,
    di: int,
)
    requires
        0 <= di,
        di + field_mutants(fields) <= draws.len(),
        fields_spec(dna, pos, fields, draws, di) is Ok,
    ensures
        fields_spec(dna, pos, fields, draws, di)->Ok_0.2 == di + field_mutants(fields),
    decreases fields.len(),
{
    if fields.len() > 0 {
        lemma_field_mutants_nonneg(fields.drop_last());
        law_fields_draw_count(dna, pos, fields.drop_last(), draws, di);
    }
}

/// Over whole groups: a successful decode of groups takes one draw per
/// mutant field, while the draws last.
pub proof fn law_groups_draw_count(dna: Seq<u8>, groups: Seq<TraitGroup>, draws: Seq<u64>)
    requires
        schema_mutants(groups) <= draws.len(),
        groups_spec(dna, groups, draws) is Ok,
    ensures
        groups_spec(dna, groups, draws)->Ok_0.2 == schema_mutants(groups),
    decreases groups.len(),
{
    if groups.len() > 0 {
        let prefix = groups.drop_last();
        lemma_schema_mutants_nonneg(prefix);
        lemma_field_mutants_nonneg(groups.last().fields@);
        law_groups_draw_count(dna, prefix, draws);
        let (_, p, d) = groups_spec(dna, prefix, draws)->Ok_0;
        law_fields_draw_count(dna, p, groups.last().fields@, draws, d);
    }
}

/// Draws go to mutant fields in group-then-field order: when everything
/// before field `k` of group `g` decodes, that field is resolved with draw
/// number `j`, where `j` counts the mutant fields before it. Swapping two
/// mutant fields therefore swaps the draws they receive.
pub proof fn law_mutant_draw_position(
    dna: Seq<u8>,
    groups: Seq<TraitGroup>,
    draws: Seq<u64>,
    g: int,
    k: int,
)
    requires
        0 <= g < groups.len(),
        0 <= k < groups[g].fields@.len(),
        schema_mutants(groups.take(g)) + field_mutants(groups[g].fields@.take(k)) <= draws.len(),
        groups_spec(dna, groups.take(g), draws) is Ok,
        fields_spec(
            dna,
            groups_spec(dna, groups.take(g), draws)->Ok_0.1,
            groups[g].fields@.take(k),
            draws,
            groups_spec(dna, groups.take(g), draws)->Ok_0.2,
        ) is Ok,
    ensures
        ({
            let (_, p, d) = groups_spec(dna, groups.take(g), draws)->Ok_0;
            let (_, q, e) = fields_spec(dna, p, groups[g].fields@.take(k), draws, d)->Ok_0;
            e == schema_mutants(groups.take(g)) + field_mutants(groups[g].fields@.take(k))
        }),
{
    lemma_schema_mutants_nonneg(groups.take(g));
    lemma_field_mutants_nonneg(groups[g].fields@.take(k));
    law_groups_draw_count(dna, groups.take(g), draws);
    let (_, p, d) = groups_spec(dna, groups.take(g), draws)->Ok_0;
    law_fields_draw_count(dna, p, groups[g].fields@.take(k), draws, d);
}

} // verus!
