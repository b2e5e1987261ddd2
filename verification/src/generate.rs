//! The training-data generation engine: partitioning, the range-row
//! encoding, the aggregate SQL statement, query-parameter derivation,
//! result-row normalization, and the per-regime run plan.

use vstd::prelude::*;
use crate::config::Config;
use crate::error::GeneratorError;
use crate::matrix::spec_select;
use crate::matrix::Matrix;
use crate::text::contains_i32;
use crate::text::dec_int;
use crate::text::dec_nat;
use crate::text::digits_val;
use crate::text::lemma_dec_int_len;
use crate::text::parse_usize;
use crate::text::parses_usize;
use crate::text::push_dec_i32;
use crate::text::push_dec_u64;
use vstd::string::StrSliceExecFns;
use vstd::string::StringExecFns;

verus! {

/// The contiguous row partitions of `rows`: `k - 1` leading partitions of
/// `base` rows each (or of what is left, once the rows run out) and a final
/// partition absorbing the remainder.
pub open spec fn parts_from(rows: Seq<Seq<u64>>, base: nat, k: nat) -> Seq<Seq<Seq<u64>>>
    decreases k,
{
    if k <= 1 {
        seq![rows]
    } else {
        let cut = if base <= rows.len() {
            base as int
        } else {
            rows.len() as int
        };
        seq![rows.take(cut)] + parts_from(rows.skip(cut), base, (k - 1) as nat)
    }
}

/// The partition of `rows` into `k` contiguous slices, the first `k - 1` of
/// `floor(len / k)` rows each.
pub open spec fn spec_partition(rows: Seq<Seq<u64>>, k: nat) -> Seq<Seq<Seq<u64>>>
    recommends
        k >= 1,
{
    parts_from(rows, rows.len() / k, k)
}

/// The rows of a sequence of partitions, joined in partition order.
pub open spec fn concat_parts(parts: Seq<Seq<Seq<u64>>>) -> Seq<Seq<u64>>
    decreases parts.len(),
{
    if parts.len() == 0 {
        Seq::empty()
    } else {
        parts[0] + concat_parts(parts.drop_first())
    }
}

proof fn lemma_parts_from_covers(rows: Seq<Seq<u64>>, base: nat, k: nat)
    ensures
        concat_parts(parts_from(rows, base, k)) == rows,
    decreases k,
{
    if k <= 1 {
        let p = parts_from(rows, base, k);
        assert(p.drop_first() =~= Seq::<Seq<Seq<u64>>>::empty());
        assert(concat_parts(p.drop_first()) == Seq::<Seq<u64>>::empty());
        assert(concat_parts(p) =~= rows);
    } else {
        let cut = if base <= rows.len() {
            base as int
        } else {
            rows.len() as int
        };
        lemma_parts_from_covers(rows.skip(cut), base, (k - 1) as nat);
        let parts = parts_from(rows, base, k);
        assert(parts.drop_first() =~= parts_from(rows.skip(cut), base, (k - 1) as nat));
        assert(rows.take(cut) + rows.skip(cut) =~= rows);
    }
}

/// Partition coverage: the partitions of any row sequence, for any count
/// `k >= 1`, concatenate back to the original sequence — they cover it
/// exactly once, in order and without overlap.
pub proof fn lemma_partition_covers(rows: Seq<Seq<u64>>, k: nat)
    requires
        k >= 1,
    ensures
        concat_parts(spec_partition(rows, k)) == rows,
{
    lemma_parts_from_covers(rows, rows.len() / k, k);
}

proof fn lemma_parts_from_sizes(rows: Seq<Seq<u64>>, base: nat, k: nat)
    requires
        k >= 1,
        base * (k - 1) <= rows.len(),
    ensures
        parts_from(rows, base, k).len() == k,
        forall|i: int| 0 <= i < k - 1 ==> #[trigger] parts_from(rows, base, k)[i].len()
            == base,
        parts_from(rows, base, k)[k - 1].len() == rows.len() - base * (k - 1),
    decreases k,
{
    if k <= 1 {
        assert(base * (k - 1) == 0) by (nonlinear_arith)
            requires
                k == 1,
        ;
    } else {
        assert(base * (k - 1) == base * (k - 2) + base) by (nonlinear_arith);
        assert(base <= rows.len());
        let rest = rows.skip(base as int);
        assert(base * (k - 2) <= rest.len());
        lemma_parts_from_sizes(rest, base, (k - 1) as nat);
        let parts = parts_from(rows, base, k);
        let sub = parts_from(rest, base, (k - 1) as nat);
        assert(parts =~= seq![rows.take(base as int)] + sub);
        assert(forall|i: int| 1 <= i < k ==> parts[i] == sub[i - 1]);
    }
}

/// The exact partition sizes: the first `k - 1` partitions hold
/// `floor(len / k)` rows each, and the last holds the rest.
pub proof fn lemma_partition_sizes(rows: Seq<Seq<u64>>, k: nat)
    requires
        k >= 1,
    ensures
        spec_partition(rows, k).len() == k,
        forall|i: int| 0 <= i < k - 1 ==> #[trigger] spec_partition(rows, k)[i].len()
            == rows.len() / k,
        spec_partition(rows, k)[k - 1].len() == rows.len() - (rows.len() / k) * (k - 1),
{
    let base = rows.len() / k;
    vstd::arithmetic::div_mod::lemma_fundamental_div_mod(rows.len() as int, k as int);
    assert(rows.len() == k * base + rows.len() % k);
    assert(base * (k - 1) <= rows.len()) by (nonlinear_arith)
        requires
            rows.len() == k * base + rows.len() % k,
            rows.len() % k >= 0,
            base >= 0,
            k >= 1,
    ;
    lemma_parts_from_sizes(rows, base, k);
}

/// Partition balance: when the row count divides evenly or leaves a single
/// remaining row, no partition exceeds `ceil(len / k)` rows. (With a larger
/// remainder the final partition absorbs all of it and exceeds that bound.)
pub proof fn lemma_partition_bound(rows: Seq<Seq<u64>>, k: nat)
    requires
        k >= 1,
        rows.len() % k <= 1,
    ensures
        forall|i: int| 0 <= i < k ==> #[trigger] spec_partition(rows, k)[i].len()
            <= (rows.len() + k - 1) as int / k as int,
{
    let len = rows.len() as int;
    let kk = k as int;
    let base = len / kk;
    let rem = len % kk;
    lemma_partition_sizes(rows, k);
    vstd::arithmetic::div_mod::lemma_fundamental_div_mod(len, kk);
    assert(len == kk * base + rem);
    if rem == 0 {
        assert(len + kk - 1 == base * kk + (kk - 1)) by (nonlinear_arith)
            requires
                len == kk * base,
        ;
        vstd::arithmetic::div_mod::lemma_fundamental_div_mod_converse(
            len + kk - 1,
            kk,
            base,
            kk - 1,
        );
        assert((len + kk - 1) / kk == base);
        assert(len - base * (kk - 1) == base) by (nonlinear_arith)
            requires
                len == kk * base,
        ;
    } else {
        assert(len + kk - 1 == (base + 1) * kk + (rem - 1)) by (nonlinear_arith)
            requires
                len == kk * base + rem,
        ;
        vstd::arithmetic::div_mod::lemma_fundamental_div_mod_converse(
            len + kk - 1,
            kk,
            base + 1,
            rem - 1,
        );
        assert((len + kk - 1) / kk == base + 1);
        assert(len - base * (kk - 1) == base + rem) by (nonlinear_arith)
            requires
                len == kk * base + rem,
        ;
    }
}

/// One aggregate term of the statement's projection list: `op` is the
/// operator name up to and including the opening `(c`, and a column absent
/// from the aggregated set contributes nothing.
pub open spec fn agg_term(c: i32, agg: Seq<i32>, op: Seq<char>) -> Seq<char> {
    if agg.contains(c) {
        op + dec_int(c as int) + "), "@
    } else {
        Seq::<char>::empty()
    }
}

/// The aggregate terms for the selected columns, in selected order, each
/// followed by a separating comma.
pub open spec fn agg_terms(sel: Seq<i32>, agg: Seq<i32>, op: Seq<char>) -> Seq<char>
    decreases sel.len(),
{
    if sel.len() == 0 {
        Seq::<char>::empty()
    } else {
        agg_term(sel[0], agg, op) + agg_terms(sel.drop_first(), agg, op)
    }
}

/// The two range predicates for one selected column, with parameter
/// numbers `p` and `p + 1`, followed by a separating ` AND `.
pub open spec fn pred_term(c: i32, p: nat) -> Seq<char> {
    "c"@ + dec_int(c as int) + " >= $"@ + dec_nat(p) + " AND c"@ + dec_int(c as int)
        + " <= $"@ + dec_nat(p + 1) + " AND "@
}

/// The range predicates for the selected columns, in selected order, two
/// sequentially numbered parameters per column starting at `p`.
pub open spec fn range_predicates(sel: Seq<i32>, p: nat) -> Seq<char>
    decreases sel.len(),
{
    if sel.len() == 0 {
        Seq::<char>::empty()
    } else {
        pred_term(sel[0], p) + range_predicates(sel.drop_first(), p + 2)
    }
}

/// The whole parameterized aggregate statement: the overall count first,
/// then the SUM, MAX and MIN terms of the aggregated columns in selected
/// order, then one closed range predicate per selected column.
pub open spec fn spec_generate_sql(table: Seq<char>, sel: Seq<i32>, agg: Seq<i32>) -> Seq<
    char,
> {
    let sums = agg_terms(sel, agg, "SUM(c"@);
    let maxs = agg_terms(sel, agg, "MAX(c"@);
    let mins = agg_terms(sel, agg, "MIN(c"@);
    let preds = range_predicates(sel, 1);
    "SELECT COUNT(c0), "@ + sums + maxs + mins.take(mins.len() - 2) + " FROM "@ + table
        + " WHERE "@ + preds.take(preds.len() - 5) + ";"@
}

proof fn lemma_agg_terms_min_len(sel: Seq<i32>, agg: Seq<i32>, op: Seq<char>)
    requires
        exists|j: int| 0 <= j < sel.len() && agg.contains(#[trigger] sel[j]),
    ensures
        agg_terms(sel, agg, op).len() >= 2,
    decreases sel.len(),
{
    reveal_strlit("), ");
    let j = choose|j: int| 0 <= j < sel.len() && agg.contains(#[trigger] sel[j]);
    if agg.contains(sel[0]) {
        lemma_dec_int_len(sel[0] as int);
    } else {
        let rest = sel.drop_first();
        assert(rest[j - 1] == sel[j]);
        lemma_agg_terms_min_len(rest, agg, op);
    }
}

proof fn lemma_preds_min_len(sel: Seq<i32>, p: nat)
    requires
        sel.len() >= 1,
    ensures
        range_predicates(sel, p).len() >= 5,
{
    reveal_strlit(" AND ");
    lemma_dec_int_len(sel[0] as int);
}

/// SQL builder determinism: the statement text is a function of the table
/// name and the selected and aggregated column lists alone, so two builds
/// from identical inputs give byte-identical SQL.
pub proof fn lemma_sql_deterministic(
    table: Seq<char>,
    sel: Seq<i32>,
    agg: Seq<i32>,
    first: Seq<char>,
    second: Seq<char>,
)
    requires
        first == spec_generate_sql(table, sel, agg),
        second == spec_generate_sql(table, sel, agg),
    ensures
        first == second,
{
}

/// Compiles the one parameterized aggregate statement for a table and
/// column configuration: `COUNT(c0)` first, the SUM/MAX/MIN terms of the
/// aggregated columns in selected order, and a closed range predicate per
/// selected column, parameters numbered sequentially from `$1`. The
/// statement is compiled once per configuration and reused for every range
/// row.
pub fn generate_sql(table_name: &str, select_fields: &Vec<i32>, agg_fields: &Vec<i32>) -> (r:
    String)
    requires
        select_fields@.len() >= 1,
        exists|j: int| 0 <= j < select_fields@.len() && agg_fields@.contains(
            #[trigger] select_fields@[j],
        ),
        2 * select_fields@.len() + 1 <= usize::MAX,
    ensures
        r@ == spec_generate_sql(table_name@, select_fields@, agg_fields@),
{
    let sel = select_fields;
    let agg = agg_fields;
    let mut sums = String::new();
    let mut maxs = String::new();
    let mut mins = String::new();
    let mut preds = String::new();
    let mut param: usize = 1;
    let mut i: usize = 0;
    proof {
        assert(sel@.skip(0) =~= sel@);
    }
    while i < sel.len()
        invariant
            0 <= i <= sel@.len(),
            2 * sel@.len() + 1 <= usize::MAX,
            param == 1 + 2 * i,
            sums@ + agg_terms(sel@.skip(i as int), agg@, "SUM(c"@) == agg_terms(
                sel@,
                agg@,
                "SUM(c"@,
            ),
            maxs@ + agg_terms(sel@.skip(i as int), agg@, "MAX(c"@) == agg_terms(
                sel@,
                agg@,
                "MAX(c"@,
            ),
            mins@ + agg_terms(sel@.skip(i as int), agg@, "MIN(c"@) == agg_terms(
                sel@,
                agg@,
                "MIN(c"@,
            ),
            preds@ + range_predicates(sel@.skip(i as int), (1 + 2 * i) as nat)
                == range_predicates(sel@, 1),
        decreases sel@.len() - i,
    {
        let c = sel[i];
        proof {
            assert(sel@.skip(i as int)[0] == c);
            assert(sel@.skip(i as int).drop_first() =~= sel@.skip(i as int + 1));
        }
        if contains_i32(agg.as_slice(), c) {
            sums.append("SUM(c");
            push_dec_i32(&mut sums, c);
            sums.append("), ");
            maxs.append("MAX(c");
            push_dec_i32(&mut maxs, c);
            maxs.append("), ");
            mins.append("MIN(c");
            push_dec_i32(&mut mins, c);
            mins.append("), ");
        }
        proof {
            assert(sums@ + agg_terms(sel@.skip(i as int + 1), agg@, "SUM(c"@) =~= agg_terms(
                sel@,
                agg@,
                "SUM(c"@,
            ));
            assert(maxs@ + agg_terms(sel@.skip(i as int + 1), agg@, "MAX(c"@) =~= agg_terms(
                sel@,
                agg@,
                "MAX(c"@,
            ));
            assert(mins@ + agg_terms(sel@.skip(i as int + 1), agg@, "MIN(c"@) =~= agg_terms(
                sel@,
                agg@,
                "MIN(c"@,
            ));
        }
        preds.append("c");
        push_dec_i32(&mut preds, c);
        preds.append(" >= $");
        push_dec_u64(&mut preds, param as u64);
        param = param + 1;
        preds.append(" AND c");
        push_dec_i32(&mut preds, c);
        preds.append(" <= $");
        push_dec_u64(&mut preds, param as u64);
        param = param + 1;
        preds.append(" AND ");
        proof {
            assert(preds@ + range_predicates(sel@.skip(i as int + 1), (1 + 2 * (i + 1)) as nat)
                =~= range_predicates(sel@, 1));
        }
        i = i + 1;
    }
    proof {
        assert(sel@.skip(sel@.len() as int) =~= Seq::<i32>::empty());
        assert(sums@ + Seq::<char>::empty() =~= sums@);
        assert(maxs@ + Seq::<char>::empty() =~= maxs@);
        assert(mins@ + Seq::<char>::empty() =~= mins@);
        assert(preds@ + Seq::<char>::empty() =~= preds@);
        lemma_agg_terms_min_len(sel@, agg@, "MIN(c"@);
        lemma_preds_min_len(sel@, 1);
    }
    let mut sql = String::from_str("SELECT COUNT(c0), ");
    sql.append(sums.as_str());
    sql.append(maxs.as_str());
    let mins_str = mins.as_str();
    let mins_len = mins_str.unicode_len();
    let mins_trim = mins_str.substring_char(0, mins_len - 2);
    sql.append(mins_trim);
    sql.append(" FROM ");
    sql.append(table_name);
    sql.append(" WHERE ");
    let preds_str = preds.as_str();
    let preds_len = preds_str.unicode_len();
    let preds_trim = preds_str.substring_char(0, preds_len - 5);
    sql.append(preds_trim);
    sql.append(";");
    proof {
        assert(mins_trim@ =~= agg_terms(sel@, agg@, "MIN(c"@).take(
            agg_terms(sel@, agg@, "MIN(c"@).len() - 2,
        ));
        assert(preds_trim@ =~= range_predicates(sel@, 1).take(
            range_predicates(sel@, 1).len() - 5,
        ));
        assert(sql@ =~= spec_generate_sql(table_name@, select_fields@, agg_fields@));
    }
    sql
}

/// Splits the working matrix into `num_parts` contiguous, order-preserving
/// row partitions: the first `num_parts - 1` hold `floor(rows / num_parts)`
/// rows each and the final partition absorbs the remainder. A partition
/// count of zero is invalid input.
pub fn partition(data: &Matrix, num_parts: usize) -> (parts: Vec<Matrix>)
    requires
        data.wf(),
        num_parts >= 1,
    ensures
        parts@.len() == num_parts,
        forall|i: int| 0 <= i < parts@.len() ==> (#[trigger] parts@[i]).wf()
            && parts@[i].spec_cols() == data.spec_cols(),
        parts@.map_values(|m: Matrix| m.rep()) == spec_partition(
            data.rep(),
            num_parts as nat,
        ),
{
    let rows = data.row_count();
    let cols = data.col_count();
    let base = rows / num_parts;
    let mut parts: Vec<Matrix> = Vec::new();
    let mut pos: usize = 0;
    let mut p: usize = 0;
    proof {
        assert(data.rep().skip(0) =~= data.rep());
    }
    while p < num_parts - 1
        invariant
            0 <= p <= num_parts - 1,
            0 <= pos <= rows,
            rows == data.rep().len(),
            cols == data.spec_cols(),
            base == rows / num_parts,
            data.wf(),
            parts@.len() == p,
            forall|i: int| 0 <= i < parts@.len() ==> (#[trigger] parts@[i]).wf()
                && parts@[i].spec_cols() == data.spec_cols(),
            spec_partition(data.rep(), num_parts as nat) == parts@.map_values(
                |m: Matrix| m.rep(),
            ) + parts_from(data.rep().skip(pos as int), base as nat, (num_parts - p) as nat),
        decreases num_parts - 1 - p,
    {
        let cut = if base <= rows - pos {
            base
        } else {
            rows - pos
        };
        let mut part = Matrix::new(cols);
        let mut i: usize = 0;
        while i < cut
            invariant
                0 <= i <= cut,
                pos + cut <= rows,
                rows == data.rep().len(),
                data.wf(),
                cols == data.spec_cols(),
                part.wf(),
                part.spec_cols() == cols,
                part.rep() == data.rep().subrange(pos as int, pos as int + i as int),
            decreases cut - i,
        {
            let row = crate::matrix::copy_row(data.row(pos + i));
            proof {
                assert(data.rep()[pos as int + i as int].len() == cols);
            }
            part.push_row(row);
            proof {
                assert(part.rep() =~= data.rep().subrange(
                    pos as int,
                    pos as int + i as int + 1,
                ));
            }
            i = i + 1;
        }
        parts.push(part);
        proof {
            let remaining = data.rep().skip(pos as int);
            let kk = (num_parts - p) as nat;
            assert(remaining.len() == rows - pos);
            let cutg = if base as nat <= remaining.len() {
                base as int
            } else {
                remaining.len() as int
            };
            assert(cutg == cut as int);
            assert(parts_from(remaining, base as nat, kk) == seq![remaining.take(cut as int)]
                + parts_from(remaining.skip(cut as int), base as nat, (kk - 1) as nat));
            assert(remaining.take(cut as int) =~= data.rep().subrange(
                pos as int,
                pos as int + cut as int,
            ));
            assert(remaining.skip(cut as int) =~= data.rep().skip(pos as int + cut as int));
            assert(part.rep() == remaining.take(cut as int));
            assert(parts@.map_values(|m: Matrix| m.rep()) =~= parts@.drop_last().map_values(
                |m: Matrix| m.rep(),
            ).push(part.rep()));
            assert(parts@.drop_last().map_values(|m: Matrix| m.rep()).push(part.rep())
                + parts_from(
                data.rep().skip(pos as int + cut as int),
                base as nat,
                (kk - 1) as nat,
            ) =~= parts@.drop_last().map_values(|m: Matrix| m.rep()) + parts_from(
                remaining,
                base as nat,
                kk,
            ));
        }
        pos = pos + cut;
        p = p + 1;
    }
    let mut last = Matrix::new(cols);
    let mut i: usize = 0;
    while i < rows - pos
        invariant
            0 <= i <= rows - pos,
            pos <= rows,
            rows == data.rep().len(),
            data.wf(),
            cols == data.spec_cols(),
            last.wf(),
            last.spec_cols() == cols,
            last.rep() == data.rep().subrange(pos as int, pos as int + i as int),
        decreases rows - pos - i,
    {
        let row = crate::matrix::copy_row(data.row(pos + i));
        proof {
            assert(data.rep()[pos as int + i as int].len() == cols);
        }
        last.push_row(row);
        proof {
            assert(last.rep() =~= data.rep().subrange(pos as int, pos as int + i as int + 1));
        }
        i = i + 1;
    }
    proof {
        assert(last.rep() =~= data.rep().skip(pos as int));
    }
    parts.push(last);
    proof {
        let remaining = data.rep().skip(pos as int);
        assert(parts_from(remaining, base as nat, 1nat) == seq![remaining]);
        assert(parts@.map_values(|m: Matrix| m.rep()) =~= parts@.drop_last().map_values(
            |m: Matrix| m.rep(),
        ).push(last.rep()));
        assert(parts@.drop_last().map_values(|m: Matrix| m.rep()).push(remaining)
            =~= parts@.drop_last().map_values(|m: Matrix| m.rep()) + seq![remaining]);
    }
    parts
}

/// Encodes a partition's range rows: row `i` of the result is row `i` of
/// the lower-bound matrix, then row `i` of the upper-bound matrix, then row
/// `i` of the bias-width matrix, giving a width of three times the number
/// of selected columns. Matrices of unequal shape are a dimension
/// mismatch.
pub fn generate_ranges(lower: &Matrix, upper: &Matrix, width: &Matrix) -> (r: Result<
    Matrix,
    GeneratorError,
>)
    requires
        lower.wf(),
        upper.wf(),
        width.wf(),
        lower.spec_cols() * 3 <= usize::MAX,
    ensures
        r is Ok <==> {
            &&& upper.rep().len() == lower.rep().len()
            &&& width.rep().len() == lower.rep().len()
            &&& upper.spec_cols() == lower.spec_cols()
            &&& width.spec_cols() == lower.spec_cols()
        },
        r is Ok ==> {
            &&& r->Ok_0.wf()
            &&& r->Ok_0.spec_cols() == 3 * lower.spec_cols()
            &&& r->Ok_0.rep().len() == lower.rep().len()
            &&& forall|i: int| 0 <= i < lower.rep().len() ==> #[trigger] r->Ok_0.rep()[i]
                == lower.rep()[i] + upper.rep()[i] + width.rep()[i]
        },
        r is Err ==> r->Err_0 is ShapeError,
{
    let rows = lower.row_count();
    let cols = lower.col_count();
    if upper.row_count() != rows || width.row_count() != rows || upper.col_count() != cols
        || width.col_count() != cols {
        return Err(GeneratorError::ShapeError(String::from_str(
            "the bound and width matrices do not share one shape",
        )));
    }
    let mut out = Matrix::new(cols * 3);
    let mut i: usize = 0;
    while i < rows
        invariant
            0 <= i <= rows,
            rows == lower.rep().len(),
            rows == upper.rep().len(),
            rows == width.rep().len(),
            lower.wf(),
            upper.wf(),
            width.wf(),
            cols == lower.spec_cols(),
            cols == upper.spec_cols(),
            cols == width.spec_cols(),
            cols * 3 <= usize::MAX,
            out.wf(),
            out.spec_cols() == 3 * cols,
            out.rep().len() == i,
            forall|j: int| 0 <= j < i ==> #[trigger] out.rep()[j] == lower.rep()[j]
                + upper.rep()[j] + width.rep()[j],
        decreases rows - i,
    {
        let mut row = crate::matrix::copy_row(lower.row(i));
        crate::matrix::append_row(&mut row, upper.row(i));
        crate::matrix::append_row(&mut row, width.row(i));
        out.push_row(row);
        i = i + 1;
    }
    Ok(out)
}

/// Derives the flattened query parameters for one range row: two entries
/// (lower, upper) per selected column in selected order, except that a
/// group column's pair collapses to its midpoint `mids[ci]`, whatever bias
/// was synthesized. Entries beyond the last full pair are left alone.
pub fn convert_to_parameters(
    parameters: &mut Vec<u64>,
    ranges: &Vec<u64>,
    mids: &Vec<u64>,
    group_fields: &Vec<i32>,
)
    requires
        ranges@.len() >= 2 * (old(parameters)@.len() / 2),
        mids@.len() >= old(parameters)@.len() / 2,
        old(parameters)@.len() / 2 <= i32::MAX,
    ensures
        final(parameters)@.len() == old(parameters)@.len(),
        forall|ci: int|
            0 <= ci < old(parameters)@.len() / 2 && group_fields@.contains(ci as i32) ==> {
                &&& #[trigger] final(parameters)@[2 * ci] == mids@[ci]
                &&& final(parameters)@[2 * ci + 1] == mids@[ci]
            },
        forall|ci: int|
            0 <= ci < old(parameters)@.len() / 2 && !group_fields@.contains(ci as i32) ==> {
                &&& #[trigger] final(parameters)@[2 * ci] == ranges@[ci]
                &&& final(parameters)@[2 * ci + 1] == ranges@[old(parameters)@.len() / 2 + ci]
            },
        forall|j: int|
            2 * (old(parameters)@.len() / 2) <= j < old(parameters)@.len()
                ==> #[trigger] final(parameters)@[j] == old(parameters)@[j],
{
    let col_count = parameters.len() / 2;
    let mut ci: usize = 0;
    while ci < col_count
        invariant
            0 <= ci <= col_count,
            col_count == old(parameters)@.len() / 2,
            col_count <= i32::MAX,
            parameters@.len() == old(parameters)@.len(),
            ranges@.len() >= 2 * col_count,
            mids@.len() >= col_count,
            forall|k: int|
                0 <= k < ci && group_fields@.contains(k as i32) ==> {
                    &&& #[trigger] parameters@[2 * k] == mids@[k]
                    &&& parameters@[2 * k + 1] == mids@[k]
                },
            forall|k: int|
                0 <= k < ci && !group_fields@.contains(k as i32) ==> {
                    &&& #[trigger] parameters@[2 * k] == ranges@[k]
                    &&& parameters@[2 * k + 1] == ranges@[col_count + k]
                },
            forall|j: int|
                2 * ci <= j < parameters@.len() ==> #[trigger] parameters@[j]
                    == old(parameters)@[j],
        decreases col_count - ci,
    {
        let ghost snap = parameters@;
        if contains_i32(group_fields.as_slice(), ci as i32) {
            let middle = mids[ci];
            parameters.set(2 * ci, middle);
            parameters.set(2 * ci + 1, middle);
        } else {
            parameters.set(2 * ci, ranges[ci]);
            parameters.set(2 * ci + 1, ranges[col_count + ci]);
        }
        proof {
            assert(forall|j: int|
                0 <= j < snap.len() && j != 2 * (ci as int) && j != 2 * (ci as int) + 1
                    ==> #[trigger] parameters@[j] == snap[j]);
            assert forall|k: int|
                0 <= k < ci + 1 && group_fields@.contains(k as i32) implies {
                &&& #[trigger] parameters@[2 * k] == mids@[k]
                &&& parameters@[2 * k + 1] == mids@[k]
            } by {
                if k < ci {
                    assert(snap[2 * k] == mids@[k]);
                    assert(snap[2 * k + 1] == mids@[k]);
                }
            }
            assert forall|k: int|
                0 <= k < ci + 1 && !group_fields@.contains(k as i32) implies {
                &&& #[trigger] parameters@[2 * k] == ranges@[k]
                &&& parameters@[2 * k + 1] == ranges@[col_count + k]
            } by {
                if k < ci {
                    assert(snap[2 * k] == ranges@[k]);
                    assert(snap[2 * k + 1] == ranges@[col_count + k]);
                }
            }
        }
        ci = ci + 1;
    }
}

/// Reads the single result row of one aggregate query execution. A missing
/// row is a fatal internal-invariant failure, reported loudly. When the
/// matched-row count is zero, every aggregate field is recorded as the bit
/// pattern of zero rather than the database's null.
pub fn read_true_answer(scan_row: Option<(i64, Vec<Option<u64>>)>) -> (r: Result<
    (i64, Vec<u64>),
    GeneratorError,
>)
    requires
        scan_row matches Some(row) ==> (row.0 > 0 ==> forall|i: int|
            0 <= i < row.1@.len() ==> row.1@[i] is Some),
    ensures
        scan_row is None ==> (r matches Err(e) && e is Message),
        scan_row matches Some(row) ==> r matches Ok(out) && {
            &&& out.0 == row.0
            &&& out.1@.len() == row.1@.len()
            &&& (row.0 > 0 ==> forall|i: int|
                0 <= i < row.1@.len() ==> #[trigger] out.1@[i] == row.1@[i].unwrap())
            &&& (row.0 <= 0 ==> forall|i: int|
                0 <= i < row.1@.len() ==> #[trigger] out.1@[i] == 0)
        },
{
    match scan_row {
        Some((count, vals)) => {
            let mut result: Vec<u64> = Vec::new();
            let mut i: usize = 0;
            while i < vals.len()
                invariant
                    0 <= i <= vals@.len(),
                    result@.len() == i,
                    count > 0 ==> forall|k: int| 0 <= k < vals@.len() ==> vals@[k] is Some,
                    count > 0 ==> forall|k: int|
                        0 <= k < i ==> #[trigger] result@[k] == vals@[k].unwrap(),
                    count <= 0 ==> forall|k: int| 0 <= k < i ==> #[trigger] result@[k] == 0,
                decreases vals@.len() - i,
            {
                if count > 0 {
                    result.push(vals[i].unwrap());
                } else {
                    result.push(0);
                }
                i = i + 1;
            }
            Ok((count, result))
        },
        None => Err(GeneratorError::Message(String::from_str(
            "the aggregate query returned no row at all",
        ))),
    }
}

/// Joins per-partition worker results for one regime, draining `results`.
/// The regime succeeds exactly when every worker succeeded; its output pair
/// lists every partition's matrices in partition order, which is row order.
/// On the first failure the regime fails with that worker's error, and no
/// output is assembled.
pub fn assemble_regime(results: &mut Vec<Result<(Matrix, Matrix), GeneratorError>>) -> (r:
    Result<(Vec<Matrix>, Vec<Matrix>), GeneratorError>)
    ensures
        r is Ok <==> (forall|i: int|
            0 <= i < old(results)@.len() ==> old(results)@[i] is Ok),
        r matches Ok(pair) ==> {
            &&& pair.0@.len() == old(results)@.len()
            &&& pair.1@.len() == old(results)@.len()
            &&& forall|i: int|
                0 <= i < old(results)@.len() ==> #[trigger] old(results)@[i]->Ok_0 == (
                pair.0@[i],
                pair.1@[i],
                )
        },
        r matches Err(e) ==> exists|i: int|
            {
                &&& 0 <= i < old(results)@.len()
                &&& #[trigger] old(results)@[i] is Err
                &&& e == old(results)@[i]->Err_0
                &&& forall|l: int| 0 <= l < i ==> old(results)@[l] is Ok
            },
{
    let ghost all = old(results)@;
    let n = results.len();
    let mut xs: Vec<Matrix> = Vec::new();
    let mut ys: Vec<Matrix> = Vec::new();
    let mut idx: usize = 0;
    while results.len() > 0
        invariant
            all == old(results)@,
            0 <= idx <= all.len(),
            all.len() == n,
            results@ == all.skip(idx as int),
            xs@.len() == idx,
            ys@.len() == idx,
            forall|l: int| 0 <= l < idx ==> #[trigger] all[l] is Ok,
            forall|l: int| 0 <= l < idx ==> #[trigger] all[l]->Ok_0 == (xs@[l], ys@[l]),
        decreases results@.len(),
    {
        proof {
            assert(idx < all.len());
        }
        let head = results.remove(0);
        proof {
            assert(all.skip(idx as int)[0] == all[idx as int]);
            assert(all.skip(idx as int).remove(0) =~= all.skip(idx as int + 1));
        }
        match head {
            Ok((x, y)) => {
                xs.push(x);
                ys.push(y);
            },
            Err(e) => {
                proof {
                    assert(all[idx as int] is Err);
                    assert(e == all[idx as int]->Err_0);
                }
                return Err(e);
            },
        }
        idx = idx + 1;
    }
    proof {
        assert(all.skip(idx as int).len() == 0);
    }
    Ok((xs, ys))
}

/// The pair of output file names for one regime: the caller-supplied
/// prefix, the zero-based regime index, and the `X`/`Y` suffixes for the
/// range matrix and the result matrix.
pub fn output_file_names(prefix: &str, regime: usize) -> (r: (String, String))
    ensures
        r.0@ == prefix@ + "-"@ + dec_nat(regime as nat) + "-X.csv"@,
        r.1@ == prefix@ + "-"@ + dec_nat(regime as nat) + "-Y.csv"@,
{
    let mut x = String::from_str(prefix);
    x.append("-");
    push_dec_u64(&mut x, regime as u64);
    x.append("-X.csv");
    let mut y = String::from_str(prefix);
    y.append("-");
    push_dec_u64(&mut y, regime as u64);
    y.append("-Y.csv");
    (x, y)
}

/// The rows of a regime's per-partition matrices, joined in partition
/// order: since partitions are order-preserving contiguous slices, this
/// restores the original global row order.
pub fn flatten_rows(parts: &Vec<Matrix>) -> (r: Vec<Vec<u64>>)
    ensures
        r@.map_values(|v: Vec<u64>| v@) == concat_parts(
            parts@.map_values(|m: Matrix| m.rep()),
        ),
{
    let ghost total = parts@.map_values(|m: Matrix| m.rep());
    let mut out: Vec<Vec<u64>> = Vec::new();
    let mut p: usize = 0;
    proof {
        assert(total.skip(0) =~= total);
        assert(out@.map_values(|v: Vec<u64>| v@) =~= Seq::<Seq<u64>>::empty());
    }
    while p < parts.len()
        invariant
            0 <= p <= parts@.len(),
            total == parts@.map_values(|m: Matrix| m.rep()),
            out@.map_values(|v: Vec<u64>| v@) + concat_parts(total.skip(p as int))
                == concat_parts(total),
        decreases parts@.len() - p,
    {
        let m = &parts[p];
        let rows = m.row_count();
        let mut i: usize = 0;
        proof {
            assert(total.skip(p as int)[0] == total[p as int]);
            assert(total[p as int] == parts@[p as int].rep());
            assert(concat_parts(total.skip(p as int)) == total.skip(p as int)[0]
                + concat_parts(total.skip(p as int).drop_first()));
            assert(total.skip(p as int).drop_first() =~= total.skip(p as int + 1));
            assert(m.rep().skip(0) =~= m.rep());
            assert(out@.map_values(|v: Vec<u64>| v@) + m.rep().skip(0) + concat_parts(
                total.skip(p as int + 1),
            ) =~= out@.map_values(|v: Vec<u64>| v@) + concat_parts(total.skip(p as int)));
        }
        while i < rows
            invariant
                0 <= i <= rows,
                rows == m.rep().len(),
                m == parts@[p as int],
                out@.map_values(|v: Vec<u64>| v@) + m.rep().skip(i as int) + concat_parts(
                    total.skip(p as int + 1),
                ) == concat_parts(total),
            decreases rows - i,
        {
            let row = crate::matrix::copy_row(m.row(i));
            out.push(row);
            proof {
                assert(out@.map_values(|v: Vec<u64>| v@) =~= out@.drop_last().map_values(
                    |v: Vec<u64>| v@,
                ).push(m.rep()[i as int]));
                assert(out@.drop_last().map_values(|v: Vec<u64>| v@).push(m.rep()[i as int])
                    + m.rep().skip(i as int + 1) =~= out@.drop_last().map_values(
                    |v: Vec<u64>| v@,
                ) + m.rep().skip(i as int));
            }
            i = i + 1;
        }
        proof {
            assert(m.rep().skip(rows as int) =~= Seq::<Seq<u64>>::empty());
            assert(out@.map_values(|v: Vec<u64>| v@) + m.rep().skip(rows as int) + concat_parts(
                total.skip(p as int + 1),
            ) =~= out@.map_values(|v: Vec<u64>| v@) + concat_parts(total.skip(p as int + 1)));
        }
        p = p + 1;
    }
    proof {
        assert(total.skip(parts@.len() as int).len() == 0);
        assert(out@.map_values(|v: Vec<u64>| v@) + concat_parts(
            total.skip(parts@.len() as int),
        ) =~= out@.map_values(|v: Vec<u64>| v@));
    }
    out
}

/// Everything one regime's workers need beyond the partitions: the
/// regime's mean and standard-deviation vectors and its two output file
/// names.
pub struct RegimePlan {
    pub means: Vec<u64>,
    pub std_devs: Vec<u64>,
    pub x_file: String,
    pub y_file: String,
}

/// The precomputed plan of one generation run: the compiled statement
/// text, the working matrix's partitions in row order, and one
/// [`RegimePlan`] per configured distribution regime.
pub struct RunPlan {
    pub sql: String,
    pub partitions: Vec<Matrix>,
    pub regimes: Vec<RegimePlan>,
}

/// Whether one regime's plan carries the regime's own mean and deviation
/// vectors and the regime's two output file names.
pub open spec fn regime_plan_ok(
    rp: RegimePlan,
    mean: Seq<u64>,
    std: Seq<u64>,
    prefix: Seq<char>,
    idx: int,
) -> bool {
    &&& rp.means@ == mean
    &&& rp.std_devs@ == std
    &&& rp.x_file@ == prefix + "-"@ + dec_nat(idx as nat) + "-X.csv"@
    &&& rp.y_file@ == prefix + "-"@ + dec_nat(idx as nat) + "-Y.csv"@
}

/// Whether the thread-count argument names a usable partition count.
pub open spec fn threads_ok(s: Seq<char>) -> bool {
    parses_usize(s) && digits_val(s) >= 1
}

/// Whether every selected column index lies inside the data matrix.
pub open spec fn fields_ok(sel: Seq<i32>, cols: nat) -> bool {
    forall|j: int| 0 <= j < sel.len() ==> 0 <= #[trigger] sel[j] < cols
}

/// Whether the column configuration admits an aggregate statement: at
/// least one selected column, of which at least one is aggregated.
pub open spec fn agg_ok(sel: Seq<i32>, agg: Seq<i32>) -> bool {
    sel.len() >= 1 && exists|j: int| 0 <= j < sel.len() && agg.contains(#[trigger] sel[j])
}

/// Whether the statement's parameter numbers fit in a machine word.
pub open spec fn width_ok(sel: Seq<i32>) -> bool {
    2 * sel.len() + 1 <= usize::MAX
}

/// Lays out one whole generation run: parses the thread-count argument,
/// projects the selected columns, splits the working matrix into one
/// partition per thread, compiles the aggregate statement, and names the
/// two output files of every configured regime. Succeeds exactly on a
/// usable thread count and a column configuration that fits the data.
pub fn execute(out_file: &str, thread_count: &str, config: &Config, data: &Matrix) -> (r:
    Result<RunPlan, GeneratorError>)
    requires
        data.wf(),
    ensures
        r is Ok <==> {
            &&& threads_ok(thread_count@)
            &&& fields_ok(config.generator.fields.select_fields@, data.spec_cols())
            &&& agg_ok(
                config.generator.fields.select_fields@,
                config.generator.fields.agg_fields@,
            )
            &&& width_ok(config.generator.fields.select_fields@)
        },
        !parses_usize(thread_count@) ==> (r matches Err(e) && e is IntParseError),
        parses_usize(thread_count@) && digits_val(thread_count@) == 0 ==> (r matches Err(e)
            && e is Message),
        threads_ok(thread_count@) && !fields_ok(
            config.generator.fields.select_fields@,
            data.spec_cols(),
        ) ==> (r matches Err(e) && e is ShapeError),
        threads_ok(thread_count@) && fields_ok(
            config.generator.fields.select_fields@,
            data.spec_cols(),
        ) && !agg_ok(
            config.generator.fields.select_fields@,
            config.generator.fields.agg_fields@,
        ) ==> (r matches Err(e) && e is Message),
        threads_ok(thread_count@) && fields_ok(
            config.generator.fields.select_fields@,
            data.spec_cols(),
        ) && agg_ok(
            config.generator.fields.select_fields@,
            config.generator.fields.agg_fields@,
        ) && !width_ok(config.generator.fields.select_fields@) ==> (r matches Err(e)
            && e is Message),
        r matches Ok(plan) ==> {
            let sel = config.generator.fields.select_fields@;
            let agg = config.generator.fields.agg_fields@;
            let means = config.generator.normal.means@;
            let stds = config.generator.normal.std_devs@;
            let n = digits_val(thread_count@) as nat;
            &&& plan.sql@ == spec_generate_sql(config.db.table_name@, sel, agg)
            &&& plan.partitions@.len() == n
            &&& (forall|i: int|
                0 <= i < plan.partitions@.len() ==> (#[trigger] plan.partitions@[i]).wf()
                    && plan.partitions@[i].spec_cols() == sel.len())
            &&& plan.partitions@.map_values(|m: Matrix| m.rep()) == spec_partition(
                spec_select(data.rep(), sel),
                n,
            )
            &&& plan.regimes@.len() == (if means.len() <= stds.len() {
                means.len()
            } else {
                stds.len()
            })
            &&& (forall|i: int|
                0 <= i < plan.regimes@.len() ==> #[trigger] regime_plan_ok(
                    plan.regimes@[i],
                    means[i]@,
                    stds[i]@,
                    out_file@,
                    i,
                ))
        },
{
    let n = match parse_usize(thread_count) {
        Ok(n) => n,
        Err(e) => {
            return Err(e);
        },
    };
    if n == 0 {
        return Err(GeneratorError::Message(String::from_str(
            "the partition count must be at least one",
        )));
    }
    let sel_fields = &config.generator.fields.select_fields;
    let agg_fields = &config.generator.fields.agg_fields;
    let trimmed = match crate::matrix::select(data, sel_fields) {
        Ok(m) => m,
        Err(e) => {
            return Err(e);
        },
    };
    let mut has_agg = false;
    let mut j: usize = 0;
    while j < sel_fields.len()
        invariant
            0 <= j <= sel_fields@.len(),
            has_agg ==> exists|l: int|
                0 <= l < sel_fields@.len() && agg_fields@.contains(#[trigger] sel_fields@[l]),
            !has_agg ==> forall|l: int|
                0 <= l < j ==> !agg_fields@.contains(#[trigger] sel_fields@[l]),
        decreases sel_fields@.len() - j,
    {
        if contains_i32(agg_fields.as_slice(), sel_fields[j]) {
            has_agg = true;
        }
        j = j + 1;
    }
    if sel_fields.len() == 0 || !has_agg {
        return Err(GeneratorError::Message(String::from_str(
            "no selected column is aggregated, so no statement can be compiled",
        )));
    }
    if sel_fields.len() > (usize::MAX - 1) / 2 {
        return Err(GeneratorError::Message(String::from_str(
            "too many selected columns for sequential parameter numbering",
        )));
    }
    proof {
        assert(2 * sel_fields@.len() + 1 <= usize::MAX) by (nonlinear_arith)
            requires
                sel_fields@.len() <= (usize::MAX - 1) / 2,
        ;
    }
    let sql = generate_sql(config.db.table_name.as_str(), sel_fields, agg_fields);
    let partitions = partition(&trimmed, n);
    let means = &config.generator.normal.means;
    let stds = &config.generator.normal.std_devs;
    let regime_count = if means.len() <= stds.len() {
        means.len()
    } else {
        stds.len()
    };
    let mut regimes: Vec<RegimePlan> = Vec::new();
    let mut i: usize = 0;
    while i < regime_count
        invariant
            0 <= i <= regime_count,
            regime_count <= means@.len(),
            regime_count <= stds@.len(),
            regimes@.len() == i,
            forall|l: int|
                0 <= l < i ==> #[trigger] regime_plan_ok(
                    regimes@[l],
                    means@[l]@,
                    stds@[l]@,
                    out_file@,
                    l,
                ),
        decreases regime_count - i,
    {
        let m = crate::matrix::copy_row(&means[i]);
        let s = crate::matrix::copy_row(&stds[i]);
        let (x_file, y_file) = output_file_names(out_file, i);
        regimes.push(RegimePlan { means: m, std_devs: s, x_file, y_file });
        i = i + 1;
    }
    Ok(RunPlan { sql, partitions, regimes })
}

} // verus!
