//! The mathematical model of the store: ghost images of the three relations
//! and the specification of how each operation reads or rewrites them.
//!
//! Product creation is modelled as a fold over the supplied variant
//! dimensions: each step resolves the dimension by name (find-or-create)
//! and appends one join row per supplied value. The read operations are
//! modelled by `rows_for_product` (the join rows of one product, paired
//! with their variant rows, in row order) and `matching_products` (the
//! products whose name contains a needle, in row order).

use vstd::prelude::*;
use crate::models::{
    NewCompleteProductView, NewProductView, NewVariantValueView, ProductVariantView, ProductView,
    VariantView,
};
use crate::text::is_substring;

verus! {

/// Ghost image of the whole store: the three relations, in row order.
#[verifier::ext_equal]
pub ghost struct CatalogView {
    pub products: Seq<ProductView>,
    pub variants: Seq<VariantView>,
    pub product_variants: Seq<ProductVariantView>,
}

/// The two relations rewritten by variant resolution during creation.
#[verifier::ext_equal]
pub ghost struct RelState {
    pub variants: Seq<VariantView>,
    pub product_variants: Seq<ProductVariantView>,
}

impl CatalogView {
    /// Well-formedness of the store:
    /// ids of every relation are dense and 1-based (the generated-id rule);
    /// every join row references an existing product and variant row;
    /// at most one variant row per distinct name (the store is
    /// single-threaded, so find-before-insert maintains this invariant);
    /// every relation is small enough for its next id to fit in `i32`.
    pub open spec fn wf(self) -> bool {
        &&& forall|i: int|
            0 <= i < self.products.len() ==> (#[trigger] self.products[i]).id == i + 1
        &&& forall|i: int|
            0 <= i < self.variants.len() ==> (#[trigger] self.variants[i]).id == i + 1
        &&& forall|i: int|
            0 <= i < self.product_variants.len() ==> {
                let pv = #[trigger] self.product_variants[i];
                &&& pv.id == i + 1
                &&& 1 <= pv.product_id <= self.products.len()
                &&& 1 <= pv.variant_id <= self.variants.len()
            }
        &&& forall|i: int, j: int|
            0 <= i < j < self.variants.len() ==> (#[trigger] self.variants[i]).name != (
            #[trigger] self.variants[j]).name
        &&& self.products.len() <= i32::MAX
        &&& self.variants.len() <= i32::MAX
        &&& self.product_variants.len() <= i32::MAX
    }

    /// The two relations touched by variant resolution.
    pub open spec fn rel(self) -> RelState {
        RelState { variants: self.variants, product_variants: self.product_variants }
    }
}

/// The first variant row whose name matches exactly, if any.
pub open spec fn find_variant(vars: Seq<VariantView>, name: Seq<char>) -> Option<VariantView>
    decreases vars.len(),
{
    if vars.len() == 0 {
        None
    } else if vars[0].name == name {
        Some(vars[0])
    } else {
        find_variant(vars.skip(1), name)
    }
}

/// Find-or-create on the variant dimension: reuse the existing row, or
/// append a fresh row with the next generated id.
pub open spec fn upsert_variant(vars: Seq<VariantView>, name: Seq<char>) -> Seq<VariantView> {
    match find_variant(vars, name) {
        Some(_) => vars,
        None => vars.push(VariantView { id: vars.len() as int + 1, name }),
    }
}

/// The id a dimension name resolves to: the existing row's id, or the id
/// the freshly inserted row receives.
pub open spec fn resolved_variant_id(vars: Seq<VariantView>, name: Seq<char>) -> int {
    match find_variant(vars, name) {
        Some(v) => v.id,
        None => vars.len() as int + 1,
    }
}

/// The join rows attaching `values` to one product under one variant, in
/// supply order, with generated ids continuing from `start`.
pub open spec fn value_rows(
    start: int,
    product_id: int,
    variant_id: int,
    values: Seq<Option<Seq<char>>>,
) -> Seq<ProductVariantView> {
    Seq::new(
        values.len(),
        |k: int|
            ProductVariantView {
                id: start + k + 1,
                variant_id: variant_id,
                product_id: product_id,
                value: values[k],
            },
    )
}

/// One creation step: resolve the dimension by name, then attach one join
/// row per supplied value.
pub open spec fn apply_variant_value(
    st: RelState,
    product_id: int,
    req: NewVariantValueView,
) -> RelState {
    let vid = resolved_variant_id(st.variants, req.name);
    RelState {
        variants: upsert_variant(st.variants, req.name),
        product_variants: st.product_variants + value_rows(
            st.product_variants.len() as int,
            product_id,
            vid,
            req.values,
        ),
    }
}

/// The creation fold: the supplied dimensions applied left to right.
pub open spec fn apply_variant_values(
    st: RelState,
    product_id: int,
    reqs: Seq<NewVariantValueView>,
) -> RelState
    decreases reqs.len(),
{
    if reqs.len() == 0 {
        st
    } else {
        apply_variant_values(apply_variant_value(st, product_id, reqs[0]), product_id, reqs.skip(1))
    }
}

/// How many values a creation request supplies in all.
pub open spec fn total_values(reqs: Seq<NewVariantValueView>) -> nat
    decreases reqs.len(),
{
    if reqs.len() == 0 {
        0
    } else {
        reqs[0].values.len() + total_values(reqs.skip(1))
    }
}

/// The product row created for payload `p` under generated id `id`.
pub open spec fn created_product(id: int, p: NewProductView) -> ProductView {
    ProductView { id: id, name: p.name, cost_cents: p.cost_cents, active: p.active }
}

/// The whole effect of one successful product creation on the store.
pub open spec fn create_effect(c: CatalogView, ncp: NewCompleteProductView) -> CatalogView {
    let id = c.products.len() as int + 1;
    let rel = apply_variant_values(c.rel(), id, ncp.variants);
    CatalogView {
        products: c.products.push(created_product(id, ncp.product)),
        variants: rel.variants,
        product_variants: rel.product_variants,
    }
}

/// The variant assignments of one product: its join rows in row order, each
/// paired with the variant row it references.
pub open spec fn rows_for_product(
    pvs: Seq<ProductVariantView>,
    vars: Seq<VariantView>,
    pid: int,
) -> Seq<(ProductVariantView, VariantView)>
    decreases pvs.len(),
{
    if pvs.len() == 0 {
        Seq::empty()
    } else {
        let rest = rows_for_product(pvs.drop_last(), vars, pid);
        if pvs.last().product_id == pid {
            rest.push((pvs.last(), vars[pvs.last().variant_id - 1]))
        } else {
            rest
        }
    }
}

/// The products whose name contains the needle, in row order.
pub open spec fn matching_products(ps: Seq<ProductView>, needle: Seq<char>) -> Seq<ProductView>
    decreases ps.len(),
{
    if ps.len() == 0 {
        Seq::empty()
    } else {
        let rest = matching_products(ps.drop_last(), needle);
        if is_substring(needle, ps.last().name) {
            rest.push(ps.last())
        } else {
            rest
        }
    }
}

/// `find_variant` returns the row at the first matching index.
pub proof fn lemma_find_variant_at(vars: Seq<VariantView>, name: Seq<char>, j: int)
    requires
        0 <= j < vars.len(),
        vars[j].name == name,
        forall|k: int| 0 <= k < j ==> (#[trigger] vars[k]).name != name,
    ensures
        find_variant(vars, name) == Some(vars[j]),
    decreases j,
{
    if j > 0 {
        assert(forall|k: int| 0 <= k < j - 1 ==> #[trigger] vars.skip(1)[k] == vars[k + 1]);
        lemma_find_variant_at(vars.skip(1), name, j - 1);
        assert(vars.skip(1)[j - 1] == vars[j]);
    }
}

/// When no row matches, `find_variant` finds nothing.
pub proof fn lemma_find_variant_none(vars: Seq<VariantView>, name: Seq<char>)
    requires
        forall|k: int| 0 <= k < vars.len() ==> (#[trigger] vars[k]).name != name,
    ensures
        find_variant(vars, name) is None,
    decreases vars.len(),
{
    if vars.len() > 0 {
        assert(forall|k: int|
            0 <= k < vars.skip(1).len() ==> #[trigger] vars.skip(1)[k] == vars[k + 1]);
        lemma_find_variant_none(vars.skip(1), name);
    }
}

/// When `find_variant` finds nothing, no row matches.
pub proof fn lemma_find_variant_none_full(vars: Seq<VariantView>, name: Seq<char>)
    requires
        find_variant(vars, name) is None,
    ensures
        forall|k: int| 0 <= k < vars.len() ==> (#[trigger] vars[k]).name != name,
    decreases vars.len(),
{
    if vars.len() > 0 {
        lemma_find_variant_none_full(vars.skip(1), name);
        assert forall|k: int| 0 <= k < vars.len() implies (#[trigger] vars[k]).name != name by {
            if k > 0 {
                assert(vars.skip(1)[k - 1] == vars[k]);
            }
        }
    }
}

/// A found row is a row of the relation, with the name looked for.
pub proof fn lemma_find_variant_some(vars: Seq<VariantView>, name: Seq<char>)
    requires
        find_variant(vars, name) is Some,
    ensures
        exists|j: int|
            0 <= j < vars.len() && vars[j] == find_variant(vars, name).unwrap() && (
            #[trigger] vars[j]).name == name,
    decreases vars.len(),
{
    if vars.len() > 0 && vars[0].name != name {
        lemma_find_variant_some(vars.skip(1), name);
        let j = choose|j: int|
            0 <= j < vars.skip(1).len() && vars.skip(1)[j] == find_variant(vars.skip(1), name).unwrap()
                && (#[trigger] vars.skip(1)[j]).name == name;
        assert(vars[j + 1] == vars.skip(1)[j]);
    }
}

/// Unrolling the creation fold at its right end.
pub proof fn lemma_apply_snoc(
    st: RelState,
    pid: int,
    reqs: Seq<NewVariantValueView>,
    req: NewVariantValueView,
)
    ensures
        apply_variant_values(st, pid, reqs.push(req)) == apply_variant_value(
            apply_variant_values(st, pid, reqs),
            pid,
            req,
        ),
    decreases reqs.len(),
{
    let s2 = reqs.push(req);
    assert(apply_variant_values(st, pid, s2) == apply_variant_values(
        apply_variant_value(st, pid, s2[0]),
        pid,
        s2.skip(1),
    ));
    if reqs.len() == 0 {
        assert(s2[0] == req);
        assert(s2.skip(1).len() == 0);
        assert(apply_variant_values(apply_variant_value(st, pid, req), pid, s2.skip(1))
            == apply_variant_value(st, pid, req));
        assert(apply_variant_values(st, pid, reqs) == st);
    } else {
        assert(s2[0] == reqs[0]);
        assert(s2.skip(1) =~= reqs.skip(1).push(req));
        lemma_apply_snoc(apply_variant_value(st, pid, reqs[0]), pid, reqs.skip(1), req);
        assert(apply_variant_values(st, pid, reqs) == apply_variant_values(
            apply_variant_value(st, pid, reqs[0]),
            pid,
            reqs.skip(1),
        ));
    }
}

/// Peeling one request off the front of the remaining-values count.
pub proof fn lemma_total_values_skip(reqs: Seq<NewVariantValueView>, i: int)
    requires
        0 <= i < reqs.len(),
    ensures
        total_values(reqs.skip(i)) == reqs[i].values.len() + total_values(reqs.skip(i + 1)),
{
    assert(reqs.skip(i)[0] == reqs[i]);
    assert(reqs.skip(i).skip(1) =~= reqs.skip(i + 1));
}

} // verus!
