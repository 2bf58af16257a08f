//! The store's laws: proofs, over the ghost model alone, of what creation
//! guarantees to the read operations.
//!
//! The central result is that after one successful creation the new
//! product's variant assignments — as every read operation reports them —
//! are exactly the supplied (dimension name, value) pairs, in supply order;
//! and that two creations sharing a dimension name leave a single variant
//! row with that name, referenced by both products' join rows.

use vstd::prelude::*;
use crate::models::{NewCompleteProductView, NewVariantValueView, ProductVariantView, VariantView};
use crate::spec_catalog::{
    CatalogView, RelState, apply_variant_value, apply_variant_values, create_effect,
    created_product, find_variant, lemma_find_variant_none_full, lemma_find_variant_some,
    resolved_variant_id, rows_for_product, total_values, upsert_variant, value_rows,
};
use crate::store::LIST_PAGE_LIMIT;

verus! {

/// Variant rows have dense 1-based ids and pairwise distinct names.
pub open spec fn vars_wf(vars: Seq<VariantView>) -> bool {
    &&& forall|i: int| 0 <= i < vars.len() ==> (#[trigger] vars[i]).id == i + 1
    &&& forall|i: int, j: int|
        0 <= i < j < vars.len() ==> (#[trigger] vars[i]).name != (#[trigger] vars[j]).name
}

/// Every join row references an existing variant row.
pub open spec fn refs_wf(pvs: Seq<ProductVariantView>, vars: Seq<VariantView>) -> bool {
    forall|i: int|
        0 <= i < pvs.len() ==> 1 <= (#[trigger] pvs[i]).variant_id <= vars.len()
}

/// The (dimension name, value) pairs one creation request supplies, in
/// supply order.
pub open spec fn pairs_of(req: NewVariantValueView) -> Seq<(Seq<char>, Option<Seq<char>>)> {
    Seq::new(req.values.len(), |k: int| (req.name, req.values[k]))
}

/// All (dimension name, value) pairs a creation request supplies, in
/// supply order across the requested dimensions.
pub open spec fn supplied_pairs(reqs: Seq<NewVariantValueView>) -> Seq<
    (Seq<char>, Option<Seq<char>>),
>
    decreases reqs.len(),
{
    if reqs.len() == 0 {
        Seq::empty()
    } else {
        pairs_of(reqs[0]) + supplied_pairs(reqs.skip(1))
    }
}

/// The (dimension name, value) reading of reported variant assignments.
pub open spec fn row_pairs(rows: Seq<(ProductVariantView, VariantView)>) -> Seq<
    (Seq<char>, Option<Seq<char>>),
> {
    rows.map_values(|r: (ProductVariantView, VariantView)| (r.1.name, r.0.value))
}

/// `rows_for_product` distributes over concatenation of the join relation.
proof fn lemma_rows_for_product_concat(
    p1: Seq<ProductVariantView>,
    p2: Seq<ProductVariantView>,
    vars: Seq<VariantView>,
    pid: int,
)
    ensures
        rows_for_product(p1 + p2, vars, pid) == rows_for_product(p1, vars, pid)
            + rows_for_product(p2, vars, pid),
    decreases p2.len(),
{
    if p2.len() == 0 {
        assert(p1 + p2 =~= p1);
        assert(rows_for_product(p1, vars, pid) + rows_for_product(p2, vars, pid)
            =~= rows_for_product(p1, vars, pid));
    } else {
        let q = p2.drop_last();
        lemma_rows_for_product_concat(p1, q, vars, pid);
        assert((p1 + p2).drop_last() =~= p1 + q);
        assert((p1 + p2).last() == p2.last());
        if p2.last().product_id == pid {
            assert((rows_for_product(p1, vars, pid) + rows_for_product(q, vars, pid)).push(
                (p2.last(), vars[p2.last().variant_id - 1]),
            ) =~= rows_for_product(p1, vars, pid) + rows_for_product(q, vars, pid).push(
                (p2.last(), vars[p2.last().variant_id - 1]),
            ));
        }
    }
}

/// A product with no join row has no variant assignments.
proof fn lemma_rows_for_product_absent(
    pvs: Seq<ProductVariantView>,
    vars: Seq<VariantView>,
    pid: int,
)
    requires
        forall|i: int| 0 <= i < pvs.len() ==> (#[trigger] pvs[i]).product_id != pid,
    ensures
        rows_for_product(pvs, vars, pid) == Seq::<(ProductVariantView, VariantView)>::empty(),
    decreases pvs.len(),
{
    if pvs.len() > 0 {
        assert(forall|i: int|
            0 <= i < pvs.drop_last().len() ==> #[trigger] pvs.drop_last()[i] == pvs[i]);
        lemma_rows_for_product_absent(pvs.drop_last(), vars, pid);
    }
}

/// Growing the variant relation does not change how existing join rows are
/// paired, as long as their references stay within the old rows.
proof fn lemma_rows_for_product_vars_extend(
    pvs: Seq<ProductVariantView>,
    vars1: Seq<VariantView>,
    vars2: Seq<VariantView>,
    pid: int,
)
    requires
        vars1.len() <= vars2.len(),
        forall|j: int| 0 <= j < vars1.len() ==> #[trigger] vars2[j] == vars1[j],
        refs_wf(pvs, vars1),
    ensures
        rows_for_product(pvs, vars2, pid) == rows_for_product(pvs, vars1, pid),
    decreases pvs.len(),
{
    if pvs.len() > 0 {
        assert(forall|i: int|
            0 <= i < pvs.drop_last().len() ==> #[trigger] pvs.drop_last()[i] == pvs[i]);
        lemma_rows_for_product_vars_extend(pvs.drop_last(), vars1, vars2, pid);
    }
}

/// Every reported assignment pairs a join row of the asked-for product with
/// exactly the variant row its reference names.
proof fn lemma_rows_for_product_structure(
    pvs: Seq<ProductVariantView>,
    vars: Seq<VariantView>,
    pid: int,
)
    requires
        refs_wf(pvs, vars),
    ensures
        ({
            let rows = rows_for_product(pvs, vars, pid);
            forall|k: int|
                0 <= k < rows.len() ==> {
                    let r = #[trigger] rows[k];
                    &&& 1 <= r.0.variant_id <= vars.len()
                    &&& r.1 == vars[r.0.variant_id - 1]
                    &&& r.0.product_id == pid
                }
        }),
    decreases pvs.len(),
{
    if pvs.len() > 0 {
        assert(forall|i: int|
            0 <= i < pvs.drop_last().len() ==> #[trigger] pvs.drop_last()[i] == pvs[i]);
        lemma_rows_for_product_structure(pvs.drop_last(), vars, pid);
    }
}

/// The join rows attaching one value list are reported in full, each paired
/// with the resolved variant row.
proof fn lemma_rows_for_value_rows(
    start: int,
    pid: int,
    vid: int,
    values: Seq<Option<Seq<char>>>,
    vars: Seq<VariantView>,
)
    ensures
        rows_for_product(value_rows(start, pid, vid, values), vars, pid) == Seq::new(
            values.len(),
            |k: int| (value_rows(start, pid, vid, values)[k], vars[vid - 1]),
        ),
    decreases values.len(),
{
    let vr = value_rows(start, pid, vid, values);
    if values.len() == 0 {
        assert(rows_for_product(vr, vars, pid) =~= Seq::new(
            values.len(),
            |k: int| (vr[k], vars[vid - 1]),
        ));
    } else {
        let q = values.drop_last();
        lemma_rows_for_value_rows(start, pid, vid, q, vars);
        assert(vr.drop_last() =~= value_rows(start, pid, vid, q));
        assert(vr.last().product_id == pid);
        assert(rows_for_product(vr, vars, pid) =~= Seq::new(
            values.len(),
            |k: int| (vr[k], vars[vid - 1]),
        ));
    }
}

/// When a dimension with at least one value is requested, the supplied
/// pairs contain its name.
proof fn lemma_supplied_pairs_found(reqs: Seq<NewVariantValueView>, i: int)
    requires
        0 <= i < reqs.len(),
        reqs[i].values.len() > 0,
    ensures
        exists|idx: int|
            0 <= idx < supplied_pairs(reqs).len() && (#[trigger] supplied_pairs(reqs)[idx]).0
                == reqs[i].name,
    decreases i,
{
    if i == 0 {
        assert(supplied_pairs(reqs)[0].0 == reqs[0].name);
    } else {
        assert(reqs.skip(1)[i - 1] == reqs[i]);
        lemma_supplied_pairs_found(reqs.skip(1), i - 1);
        let idx = choose|idx: int|
            0 <= idx < supplied_pairs(reqs.skip(1)).len() && (#[trigger] supplied_pairs(
                reqs.skip(1),
            )[idx]).0 == reqs.skip(1)[i - 1].name;
        assert(supplied_pairs(reqs)[pairs_of(reqs[0]).len() + idx].0 == reqs[i].name);
    }
}

/// One creation step keeps the variant relation well-formed and resolves
/// the requested name to a row carrying that name, stable under later
/// growth of the relation.
proof fn lemma_step_vars(vars: Seq<VariantView>, name: Seq<char>)
    requires
        vars_wf(vars),
    ensures
        vars_wf(upsert_variant(vars, name)),
        vars.len() <= upsert_variant(vars, name).len() <= vars.len() + 1,
        forall|j: int| 0 <= j < vars.len() ==> #[trigger] upsert_variant(vars, name)[j] == vars[j],
        1 <= resolved_variant_id(vars, name) <= upsert_variant(vars, name).len(),
        upsert_variant(vars, name)[resolved_variant_id(vars, name) - 1].name == name,
{
    match find_variant(vars, name) {
        Some(v) => {
            lemma_find_variant_some(vars, name);
            let j = choose|j: int|
                0 <= j < vars.len() && vars[j] == find_variant(vars, name).unwrap() && (
                #[trigger] vars[j]).name == name;
            assert(vars[j].id == j + 1);
        },
        None => {
            lemma_find_variant_none_full(vars, name);
        },
    }
}

/// The creation fold only appends: existing variant rows and join rows keep
/// their places; every appended join row belongs to the product being
/// created; well-formedness of the relations is preserved; the join
/// relation grows by exactly the number of supplied values.
proof fn lemma_apply_variant_values_props(st: RelState, pid: int, reqs: Seq<NewVariantValueView>)
    requires
        vars_wf(st.variants),
        refs_wf(st.product_variants, st.variants),
        forall|i: int|
            0 <= i < st.product_variants.len() ==> (#[trigger] st.product_variants[i]).id == i + 1,
    ensures
        ({
            let st2 = apply_variant_values(st, pid, reqs);
            &&& vars_wf(st2.variants)
            &&& refs_wf(st2.product_variants, st2.variants)
            &&& forall|i: int|
                0 <= i < st2.product_variants.len() ==> (#[trigger] st2.product_variants[i]).id
                    == i + 1
            &&& st.variants.len() <= st2.variants.len() <= st.variants.len() + reqs.len()
            &&& forall|j: int|
                0 <= j < st.variants.len() ==> #[trigger] st2.variants[j] == st.variants[j]
            &&& st2.product_variants.len() == st.product_variants.len() + total_values(reqs)
            &&& forall|i: int|
                0 <= i < st.product_variants.len() ==> #[trigger] st2.product_variants[i]
                    == st.product_variants[i]
            &&& forall|i: int|
                st.product_variants.len() <= i < st2.product_variants.len() ==> (
                #[trigger] st2.product_variants[i]).product_id == pid
        }),
    decreases reqs.len(),
{
    if reqs.len() > 0 {
        let st1 = apply_variant_value(st, pid, reqs[0]);
        lemma_step_vars(st.variants, reqs[0].name);
        lemma_apply_variant_values_props(st1, pid, reqs.skip(1));
    }
}

/// The creation fold's whole contribution to one product's reported
/// assignments: the supplied (name, value) pairs, in supply order, after
/// whatever the old join relation already reported.
proof fn lemma_apply_variant_values_row_pairs(
    st: RelState,
    pid: int,
    reqs: Seq<NewVariantValueView>,
)
    requires
        vars_wf(st.variants),
    ensures
        ({
            let st2 = apply_variant_values(st, pid, reqs);
            row_pairs(rows_for_product(st2.product_variants, st2.variants, pid)) == row_pairs(
                rows_for_product(st.product_variants, st2.variants, pid),
            ) + supplied_pairs(reqs)
        }),
    decreases reqs.len(),
{
    let st2 = apply_variant_values(st, pid, reqs);
    if reqs.len() == 0 {
        assert(row_pairs(rows_for_product(st.product_variants, st2.variants, pid))
            + supplied_pairs(reqs) =~= row_pairs(
            rows_for_product(st.product_variants, st2.variants, pid),
        ));
    } else {
        let name0 = reqs[0].name;
        let vals0 = reqs[0].values;
        let vid = resolved_variant_id(st.variants, name0);
        let st1 = apply_variant_value(st, pid, reqs[0]);
        let vr = value_rows(st.product_variants.len() as int, pid, vid, vals0);
        lemma_step_vars(st.variants, name0);
        lemma_apply_variant_values_row_pairs(st1, pid, reqs.skip(1));
        // st2 extends st1's variant relation, so resolution stays visible.
        lemma_apply_variant_values_props(
            RelState { variants: st1.variants, product_variants: Seq::empty() },
            pid,
            reqs.skip(1),
        );
        let stv = apply_variant_values(
            RelState { variants: st1.variants, product_variants: Seq::empty() },
            pid,
            reqs.skip(1),
        );
        assert(stv.variants == st2.variants) by {
            lemma_apply_same_variants(st1, RelState { variants: st1.variants, product_variants: Seq::empty() }, pid, reqs.skip(1));
        }
        assert(st2.variants[vid - 1].name == name0);
        lemma_rows_for_product_concat(st.product_variants, vr, st2.variants, pid);
        lemma_rows_for_value_rows(st.product_variants.len() as int, pid, vid, vals0, st2.variants);
        assert(row_pairs(
            rows_for_product(st.product_variants, st2.variants, pid) + rows_for_product(
                vr,
                st2.variants,
                pid,
            ),
        ) =~= row_pairs(rows_for_product(st.product_variants, st2.variants, pid)) + row_pairs(
            rows_for_product(vr, st2.variants, pid),
        ));
        assert(row_pairs(rows_for_product(vr, st2.variants, pid)) =~= pairs_of(reqs[0]));
        assert(row_pairs(rows_for_product(st.product_variants, st2.variants, pid)) + pairs_of(
            reqs[0],
        ) + supplied_pairs(reqs.skip(1)) =~= row_pairs(
            rows_for_product(st.product_variants, st2.variants, pid),
        ) + (pairs_of(reqs[0]) + supplied_pairs(reqs.skip(1))));
    }
}

/// Creation preserves well-formedness of the store: ids stay dense, join
/// rows keep referencing existing rows, and variant names stay unique.
pub proof fn lemma_create_effect_wf(c: CatalogView, ncp: NewCompleteProductView)
    requires
        c.wf(),
        c.products.len() < i32::MAX,
        c.variants.len() + ncp.variants.len() <= i32::MAX,
        c.product_variants.len() + total_values(ncp.variants) <= i32::MAX,
    ensures
        create_effect(c, ncp).wf(),
        create_effect(c, ncp).products == c.products.push(
            created_product(c.products.len() as int + 1, ncp.product),
        ),
{
    let pid = c.products.len() as int + 1;
    let c2 = create_effect(c, ncp);
    lemma_apply_variant_values_props(c.rel(), pid, ncp.variants);
    let st2 = apply_variant_values(c.rel(), pid, ncp.variants);
    assert forall|i: int| 0 <= i < c2.product_variants.len() implies {
        let pv = #[trigger] c2.product_variants[i];
        &&& pv.id == i + 1
        &&& 1 <= pv.product_id <= c2.products.len()
        &&& 1 <= pv.variant_id <= c2.variants.len()
    } by {
        if i < c.product_variants.len() {
            assert(c2.product_variants[i] == c.product_variants[i]);
        }
    }
}

/// LAW: after one successful creation the new product's id addresses a row
/// holding exactly the supplied payload, and its reported variant
/// assignments — full and unpaginated, as `show_product` returns them —
/// are exactly the supplied (dimension name, value) pairs, in supply order.
pub proof fn lemma_created_product_has_supplied_rows(c: CatalogView, ncp: NewCompleteProductView)
    requires
        c.wf(),
    ensures
        ({
            let c2 = create_effect(c, ncp);
            let pid = c.products.len() as int + 1;
            &&& 1 <= pid <= c2.products.len()
            &&& c2.products[pid - 1] == created_product(pid, ncp.product)
            &&& row_pairs(rows_for_product(c2.product_variants, c2.variants, pid))
                == supplied_pairs(ncp.variants)
        }),
{
    let c2 = create_effect(c, ncp);
    let pid = c.products.len() as int + 1;
    lemma_apply_variant_values_row_pairs(c.rel(), pid, ncp.variants);
    lemma_rows_for_product_absent(c.product_variants, c2.variants, pid);
    assert(row_pairs(rows_for_product(c.product_variants, c2.variants, pid)) =~= Seq::<
        (Seq<char>, Option<Seq<char>>),
    >::empty());
    assert(row_pairs(rows_for_product(c.product_variants, c2.variants, pid)) + supplied_pairs(
        ncp.variants,
    ) =~= supplied_pairs(ncp.variants));
}

/// LAW: when the store holds fewer products than one page, a just-created
/// product falls inside the page that `list_products` returns, at the last
/// position, with its supplied variant assignments.
pub proof fn lemma_created_product_listed(c: CatalogView, ncp: NewCompleteProductView)
    requires
        c.wf(),
        c.products.len() < LIST_PAGE_LIMIT,
    ensures
        ({
            let c2 = create_effect(c, ncp);
            let idx = c.products.len() as int;
            let page_len: nat = if c2.products.len() < LIST_PAGE_LIMIT {
                c2.products.len()
            } else {
                LIST_PAGE_LIMIT as nat
            };
            &&& idx < page_len
            &&& c2.products[idx] == created_product(idx + 1, ncp.product)
            &&& row_pairs(rows_for_product(c2.product_variants, c2.variants, idx + 1))
                == supplied_pairs(ncp.variants)
        }),
{
    lemma_created_product_has_supplied_rows(c, ncp);
}

/// LAW: two creations that share a variant dimension name leave exactly one
/// variant row carrying that name, and the join rows of both created
/// products reference that row's id.
pub proof fn lemma_shared_variant_single_row(
    c: CatalogView,
    ncp1: NewCompleteProductView,
    ncp2: NewCompleteProductView,
    name: Seq<char>,
    i1: int,
    i2: int,
)
    requires
        c.wf(),
        c.products.len() + 2 <= i32::MAX,
        c.variants.len() + ncp1.variants.len() + ncp2.variants.len() <= i32::MAX,
        c.product_variants.len() + total_values(ncp1.variants) + total_values(ncp2.variants)
            <= i32::MAX,
        0 <= i1 < ncp1.variants.len(),
        ncp1.variants[i1].name == name,
        ncp1.variants[i1].values.len() > 0,
        0 <= i2 < ncp2.variants.len(),
        ncp2.variants[i2].name == name,
        ncp2.variants[i2].values.len() > 0,
    ensures
        ({
            let c1 = create_effect(c, ncp1);
            let c2 = create_effect(c1, ncp2);
            let pid1 = c.products.len() as int + 1;
            let pid2 = c1.products.len() as int + 1;
            let rows1 = rows_for_product(c2.product_variants, c2.variants, pid1);
            let rows2 = rows_for_product(c2.product_variants, c2.variants, pid2);
            &&& find_variant(c2.variants, name) is Some
            &&& forall|j1: int, j2: int|
                0 <= j1 < j2 < c2.variants.len() ==> !((#[trigger] c2.variants[j1]).name == name
                    && (#[trigger] c2.variants[j2]).name == name)
            &&& exists|k: int|
                0 <= k < rows1.len() && (#[trigger] rows1[k]).0.variant_id == find_variant(
                    c2.variants,
                    name,
                ).unwrap().id
            &&& exists|k: int|
                0 <= k < rows2.len() && (#[trigger] rows2[k]).0.variant_id == find_variant(
                    c2.variants,
                    name,
                ).unwrap().id
        }),
{
    let c1 = create_effect(c, ncp1);
    let c2 = create_effect(c1, ncp2);
    let pid1 = c.products.len() as int + 1;
    let pid2 = c1.products.len() as int + 1;
    let rows1 = rows_for_product(c2.product_variants, c2.variants, pid1);
    let rows2 = rows_for_product(c2.product_variants, c2.variants, pid2);
    lemma_create_effect_wf(c, ncp1);
    lemma_apply_variant_values_props(c.rel(), pid1, ncp1.variants);
    lemma_create_effect_wf(c1, ncp2);

    // The second product's reported rows are its supplied pairs.
    lemma_created_product_has_supplied_rows(c1, ncp2);
    lemma_supplied_pairs_found(ncp2.variants, i2);
    lemma_rows_for_product_structure(c2.product_variants, c2.variants, pid2);
    let idx2 = choose|idx: int|
        0 <= idx < supplied_pairs(ncp2.variants).len() && (#[trigger] supplied_pairs(
            ncp2.variants,
        )[idx]).0 == ncp2.variants[i2].name;
    assert(rows2[idx2].1.name == name);

    // The first product's rows are untouched by the second creation.
    lemma_apply_variant_values_props(c1.rel(), pid2, ncp2.variants);
    let added = c2.product_variants.skip(c1.product_variants.len() as int);
    assert(forall|i: int|
        0 <= i < added.len() ==> #[trigger] added[i] == c2.product_variants[
            c1.product_variants.len() + i
        ]);
    assert(c2.product_variants =~= c1.product_variants + added);
    assert(forall|i: int| 0 <= i < added.len() ==> (#[trigger] added[i]).product_id == pid2);
    lemma_rows_for_product_concat(c1.product_variants, added, c2.variants, pid1);
    lemma_rows_for_product_absent(added, c2.variants, pid1);
    lemma_rows_for_product_vars_extend(c1.product_variants, c1.variants, c2.variants, pid1);
    assert(rows1 =~= rows_for_product(c1.product_variants, c1.variants, pid1));
    lemma_created_product_has_supplied_rows(c, ncp1);
    lemma_supplied_pairs_found(ncp1.variants, i1);
    lemma_rows_for_product_structure(c1.product_variants, c1.variants, pid1);
    let idx1 = choose|idx: int|
        0 <= idx < supplied_pairs(ncp1.variants).len() && (#[trigger] supplied_pairs(
            ncp1.variants,
        )[idx]).0 == ncp1.variants[i1].name;
    assert(rows1[idx1].1.name == name);

    // A row named `name` exists, so the first match is a row named `name`.
    if find_variant(c2.variants, name) is None {
        lemma_find_variant_none_full(c2.variants, name);
        assert(rows2[idx2].1 == c2.variants[rows2[idx2].0.variant_id - 1]);
        assert(false);
    }
    lemma_find_variant_some(c2.variants, name);
    let j0 = choose|j: int|
        0 <= j < c2.variants.len() && c2.variants[j] == find_variant(c2.variants, name).unwrap()
            && (#[trigger] c2.variants[j]).name == name;
    assert(c2.variants[j0].id == j0 + 1);

    // Both referenced variant rows carry `name`, so by uniqueness both
    // references are to the single row the lookup finds.
    let v2 = rows2[idx2].0.variant_id;
    assert(rows2[idx2].1 == c2.variants[v2 - 1]);
    assert(v2 - 1 == j0);
    let v1 = rows1[idx1].0.variant_id;
    assert(rows1[idx1].1 == c1.variants[v1 - 1]);
    assert(c2.variants[v1 - 1] == c1.variants[v1 - 1]);
    assert(v1 - 1 == j0);
    assert(rows1[idx1].0.variant_id == find_variant(c2.variants, name).unwrap().id);
    assert(rows2[idx2].0.variant_id == find_variant(c2.variants, name).unwrap().id);
}

/// The variant relation the fold produces does not depend on the join
/// relation it starts from.
proof fn lemma_apply_same_variants(
    sta: RelState,
    stb: RelState,
    pid: int,
    reqs: Seq<NewVariantValueView>,
)
    requires
        sta.variants == stb.variants,
    ensures
        apply_variant_values(sta, pid, reqs).variants == apply_variant_values(
            stb,
            pid,
            reqs,
        ).variants,
    decreases reqs.len(),
{
    if reqs.len() > 0 {
        lemma_apply_same_variants(
            apply_variant_value(sta, pid, reqs[0]),
            apply_variant_value(stb, pid, reqs[0]),
            pid,
            reqs.skip(1),
        );
    }
}

} // verus!
