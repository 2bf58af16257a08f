//! The in-memory store: three relations held as vectors of rows, with the
//! four data-access operations verified against the ghost model of
//! `spec_catalog`.
//!
//! The store is single-threaded; one call runs to completion before the
//! next begins. Product creation is therefore all-or-nothing by
//! construction, and find-before-insert keeps variant names unique — the
//! classic race of concurrent find-or-create cannot arise here, and the
//! uniqueness of names is a proved invariant rather than a hope.
//!
//! Capacity — every relation small enough for its next generated id to fit
//! in `i32` — is a precondition of creation, not a run-time failure: where
//! a disk-backed engine would abort and surface a storage failure, this
//! engine asks its caller to stay within machine limits and in return
//! never fails.

use vstd::prelude::*;
use crate::models::{
    CatalogError, NewCompleteProduct, NewProduct, NewVariantValue, NewVariantValueView, Product,
    ProductVariant, Variant, ProductVariantView, ProductView, VariantView, clone_opt_string,
};
use crate::spec_catalog::{
    CatalogView, RelState, apply_variant_value, apply_variant_values, create_effect,
    created_product, find_variant, lemma_apply_snoc, lemma_find_variant_at,
    lemma_find_variant_none, lemma_find_variant_none_full, lemma_find_variant_some,
    lemma_total_values_skip, matching_products,
    resolved_variant_id, rows_for_product, total_values, upsert_variant, value_rows,
};
use crate::text::str_contains;

verus! {

/// The fixed page size of `list_products`.
pub const LIST_PAGE_LIMIT: usize = 10;

/// Ghost image of a sequence of product rows.
pub open spec fn product_views(s: Seq<Product>) -> Seq<ProductView> {
    s.map_values(|p: Product| p@)
}

/// Ghost image of a sequence of variant rows.
pub open spec fn variant_views(s: Seq<Variant>) -> Seq<VariantView> {
    s.map_values(|v: Variant| v@)
}

/// Ghost image of a sequence of join rows.
pub open spec fn product_variant_views(s: Seq<ProductVariant>) -> Seq<ProductVariantView> {
    s.map_values(|p: ProductVariant| p@)
}

/// Ghost image of a sequence of (join row, variant row) pairs.
pub open spec fn pair_views(s: Seq<(ProductVariant, Variant)>) -> Seq<
    (ProductVariantView, VariantView),
> {
    s.map_values(|p: (ProductVariant, Variant)| (p.0@, p.1@))
}

/// The product of each returned (product, assignments) row.
pub open spec fn row_products(s: Seq<(Product, Vec<(ProductVariant, Variant)>)>) -> Seq<
    ProductView,
> {
    s.map_values(|r: (Product, Vec<(ProductVariant, Variant)>)| r.0@)
}

/// The relational store: products, shared variant dimensions, and the join
/// rows attaching one value of one dimension to one product.
pub struct Catalog {
    products: Vec<Product>,
    variants: Vec<Variant>,
    product_variants: Vec<ProductVariant>,
}

impl View for Catalog {
    type V = CatalogView;

    closed spec fn view(&self) -> CatalogView {
        CatalogView {
            products: product_views(self.products@),
            variants: variant_views(self.variants@),
            product_variants: product_variant_views(self.product_variants@),
        }
    }
}

impl Catalog {
    /// Well-formedness: the ghost image of the store is well-formed.
    pub open spec fn wf(&self) -> bool {
        self@.wf()
    }

    /// An empty store.
    pub fn new() -> (r: Catalog)
        ensures
            r.wf(),
            r@.products.len() == 0,
            r@.variants.len() == 0,
            r@.product_variants.len() == 0,
    {
        Catalog { products: Vec::new(), variants: Vec::new(), product_variants: Vec::new() }
    }

    /// The variant assignments of the product with id `pid`: its join rows
    /// in row order, each paired with a copy of its variant row.
    fn collect_rows(&self, pid: i32) -> (r: Vec<(ProductVariant, Variant)>)
        requires
            self.wf(),
        ensures
            pair_views(r@) == rows_for_product(self@.product_variants, self@.variants, pid as int),
    {
        let ghost pvs = self@.product_variants;
        let ghost vars = self@.variants;
        let mut out: Vec<(ProductVariant, Variant)> = Vec::new();
        let mut j: usize = 0;
        while j < self.product_variants.len()
            invariant
                self.wf(),
                pvs == self@.product_variants,
                vars == self@.variants,
                j <= self.product_variants.len(),
                pair_views(out@) == rows_for_product(pvs.take(j as int), vars, pid as int),
            decreases self.product_variants.len() - j,
        {
            let pv = &self.product_variants[j];
            let ghost prev = out@;
            if pv.product_id == pid {
                let vi = (pv.variant_id - 1) as usize;
                let row = (pv.clone(), self.variants[vi].clone());
                out.push(row);
                proof {
                    assert(pair_views(out@) =~= pair_views(prev).push(
                        (pvs[j as int], vars[pvs[j as int].variant_id - 1]),
                    ));
                }
            }
            proof {
                assert(pvs.take(j + 1).drop_last() =~= pvs.take(j as int));
                assert(pvs.take(j + 1).last() == pvs[j as int]);
            }
            j += 1;
        }
        proof {
            assert(pvs.take(self.product_variants@.len() as int) =~= pvs);
        }
        out
    }

    /// The id of the first variant row whose name matches exactly, if any.
    fn find_variant_id(variants: &Vec<Variant>, name: &String) -> (r: Option<i32>)
        ensures
            (r is Some) == (find_variant(variant_views(variants@), name@) is Some),
            r is Some ==> find_variant(variant_views(variants@), name@).unwrap().id == r.unwrap()
                as int,
    {
        let ghost vars = variant_views(variants@);
        let mut j: usize = 0;
        while j < variants.len()
            invariant
                vars == variant_views(variants@),
                j <= variants.len(),
                forall|k: int| 0 <= k < j ==> (#[trigger] vars[k]).name != name@,
            decreases variants.len() - j,
        {
            if variants[j].name == *name {
                proof {
                    lemma_find_variant_at(vars, name@, j as int);
                }
                return Some(variants[j].id);
            }
            j += 1;
        }
        proof {
            lemma_find_variant_none(vars, name@);
        }
        None
    }

    /// Creates one complete product atomically: inserts the product row,
    /// resolves each supplied variant dimension by find-or-create, and
    /// attaches one join row per supplied value, in supply order. Returns
    /// the new product's generated id.
    pub fn create_product(&mut self, new_product: NewCompleteProduct) -> (r: Result<
        i32,
        CatalogError,
    >)
        requires
            old(self).wf(),
            old(self)@.products.len() < i32::MAX,
            old(self)@.variants.len() + new_product@.variants.len() <= i32::MAX,
            old(self)@.product_variants.len() + total_values(new_product@.variants) <= i32::MAX,
        ensures
            final(self).wf(),
            final(self)@ == create_effect(old(self)@, new_product@),
            r == Ok::<i32, CatalogError>((old(self)@.products.len() + 1) as i32),
    {
        let ghost c0 = self@;
        let ghost ncpv = new_product@;
        let ghost rel0 = c0.rel();
        let pid: i32 = (self.products.len() as i32) + 1;
        let NewCompleteProduct { product, variants: reqs } = new_product;
        let NewProduct { name: pname, cost_cents, active } = product;
        self.products.push(Product { id: pid, name: pname, cost_cents, active });
        proof {
            assert(self@.products =~= c0.products.push(created_product(pid as int, ncpv.product)));
            assert(self@.variants =~= c0.variants);
            assert(self@.product_variants =~= c0.product_variants);
            assert(ncpv.variants.skip(0) =~= ncpv.variants);
            assert(ncpv.variants.take(0) =~= Seq::<NewVariantValueView>::empty());
        }
        let ghost prods1 = self@.products;
        let mut i: usize = 0;
        while i < reqs.len()
            invariant
                i <= reqs.len(),
                reqs@.map_values(|v: NewVariantValue| v@) == ncpv.variants,
                self@.products == prods1,
                prods1 == c0.products.push(created_product(c0.products.len() as int + 1, ncpv.product)),
                pid as int == c0.products.len() + 1,
                self@.rel() == apply_variant_values(rel0, pid as int, ncpv.variants.take(i as int)),
                self.wf(),
                self@.variants.len() + (reqs@.len() - i) <= i32::MAX,
                self@.product_variants.len() + total_values(ncpv.variants.skip(i as int))
                    <= i32::MAX,
            decreases reqs.len() - i,
        {
            let ghost st_i = apply_variant_values(rel0, pid as int, ncpv.variants.take(i as int));
            let ghost namev = ncpv.variants[i as int].name;
            let ghost values_v = ncpv.variants[i as int].values;
            proof {
                assert(reqs@.map_values(|v: NewVariantValue| v@)[i as int] == reqs@[i as int]@);
                lemma_total_values_skip(ncpv.variants, i as int);
            }
            let found = Self::find_variant_id(&self.variants, &reqs[i].variant.name);
            let vid: i32 = match found {
                Some(v) => {
                    proof {
                        lemma_find_variant_some(st_i.variants, namev);
                        let j = choose|j: int|
                            0 <= j < st_i.variants.len() && st_i.variants[j] == find_variant(
                                st_i.variants,
                                namev,
                            ).unwrap() && (#[trigger] st_i.variants[j]).name == namev;
                        assert(self@.variants[j].id == j + 1);
                    }
                    v
                },
                None => {
                    let nv: i32 = (self.variants.len() as i32) + 1;
                    let ghost vars_before = self@.variants;
                    self.variants.push(Variant { id: nv, name: reqs[i].variant.name.clone() });
                    proof {
                        lemma_find_variant_none_full(vars_before, namev);
                        assert(self@.variants =~= vars_before.push(
                            VariantView { id: vars_before.len() as int + 1, name: namev },
                        ));
                        assert(self@.products =~= prods1);
                        assert(self@.product_variants =~= st_i.product_variants);
                    }
                    nv
                },
            };
            proof {
                assert(self@.variants == upsert_variant(st_i.variants, namev));
                assert(vid as int == resolved_variant_id(st_i.variants, namev));
                assert(1 <= vid as int <= self@.variants.len());
            }
            let value_count = reqs[i].values.len();
            let mut k: usize = 0;
            while k < value_count
                invariant
                    k <= value_count,
                    i < reqs.len(),
                    value_count == reqs@[i as int].values.len(),
                    reqs@.map_values(|v: NewVariantValue| v@) == ncpv.variants,
                    namev == ncpv.variants[i as int].name,
                    values_v == ncpv.variants[i as int].values,
                    values_v == reqs@[i as int]@.values,
                    self@.products == prods1,
                    pid as int == c0.products.len() + 1,
                    prods1 == c0.products.push(created_product(c0.products.len() as int + 1, ncpv.product)),
                    self@.variants == upsert_variant(st_i.variants, namev),
                    vid as int == resolved_variant_id(st_i.variants, namev),
                    1 <= vid as int <= self@.variants.len(),
                    self@.product_variants == st_i.product_variants + value_rows(
                        st_i.product_variants.len() as int,
                        pid as int,
                        vid as int,
                        values_v.take(k as int),
                    ),
                    self.wf(),
                    self@.variants.len() + (reqs@.len() - i - 1) <= i32::MAX,
                    self@.product_variants.len() + (values_v.len() - k) + total_values(
                        ncpv.variants.skip(i as int + 1),
                    ) <= i32::MAX,
                decreases value_count - k,
            {
                let val = clone_opt_string(&reqs[i].values[k]);
                let pvid: i32 = (self.product_variants.len() as i32) + 1;
                let ghost pvs_before = self@.product_variants;
                self.product_variants.push(
                    ProductVariant { id: pvid, variant_id: vid, product_id: pid, value: val },
                );
                proof {
                    assert(reqs@[i as int]@.values[k as int] == reqs@[i as int].values@[
                        k as int
                    ].deep_view());
                    assert(self@.product_variants =~= pvs_before.push(
                        ProductVariantView {
                            id: pvs_before.len() as int + 1,
                            variant_id: vid as int,
                            product_id: pid as int,
                            value: values_v[k as int],
                        },
                    ));
                    assert(values_v.take(k + 1) =~= values_v.take(k as int).push(
                        values_v[k as int],
                    ));
                    assert(st_i.product_variants + value_rows(
                        st_i.product_variants.len() as int,
                        pid as int,
                        vid as int,
                        values_v.take(k + 1),
                    ) =~= pvs_before.push(
                        ProductVariantView {
                            id: pvs_before.len() as int + 1,
                            variant_id: vid as int,
                            product_id: pid as int,
                            value: values_v[k as int],
                        },
                    ));
                    assert(self@.products =~= prods1);
                    assert(self@.variants =~= upsert_variant(st_i.variants, namev));
                }
                k += 1;
            }
            proof {
                assert(values_v.take(value_count as int) =~= values_v);
                assert(self@.rel() =~= apply_variant_value(st_i, pid as int, ncpv.variants[i as int]));
                assert(ncpv.variants.take(i + 1) =~= ncpv.variants.take(i as int).push(
                    ncpv.variants[i as int],
                ));
                lemma_apply_snoc(rel0, pid as int, ncpv.variants.take(i as int), ncpv.variants[i as int]);
            }
            i += 1;
        }
        proof {
            assert(ncpv.variants.take(reqs@.len() as int) =~= ncpv.variants);
            assert(self@ =~= create_effect(c0, ncpv));
        }
        Ok(pid)
    }

    /// Returns the first page of products — at most `LIST_PAGE_LIMIT` rows,
    /// in insertion order — each paired with its variant assignments in
    /// supply order. An empty store yields an empty page, not an error.
    pub fn list_products(&self) -> (r: Result<
        Vec<(Product, Vec<(ProductVariant, Variant)>)>,
        CatalogError,
    >)
        requires
            self.wf(),
        ensures
            r is Ok,
            ({
                let rows = r.unwrap()@;
                &&& rows.len() == if self@.products.len() < LIST_PAGE_LIMIT {
                    self@.products.len()
                } else {
                    LIST_PAGE_LIMIT as nat
                }
                &&& rows.len() <= LIST_PAGE_LIMIT
                &&& forall|i: int|
                    0 <= i < rows.len() ==> (#[trigger] rows[i]).0@ == self@.products[i]
                &&& forall|i: int|
                    0 <= i < rows.len() ==> pair_views((#[trigger] rows[i]).1@)
                        == rows_for_product(
                        self@.product_variants,
                        self@.variants,
                        self@.products[i].id,
                    )
            }),
    {
        let count = if self.products.len() < LIST_PAGE_LIMIT {
            self.products.len()
        } else {
            LIST_PAGE_LIMIT
        };
        let mut out: Vec<(Product, Vec<(ProductVariant, Variant)>)> = Vec::new();
        let mut i: usize = 0;
        while i < count
            invariant
                self.wf(),
                count <= self.products.len(),
                i <= count,
                out@.len() == i,
                forall|j: int| 0 <= j < i ==> (#[trigger] out@[j]).0@ == self@.products[j],
                forall|j: int|
                    0 <= j < i ==> pair_views((#[trigger] out@[j]).1@) == rows_for_product(
                        self@.product_variants,
                        self@.variants,
                        self@.products[j].id,
                    ),
            decreases count - i,
        {
            let p = self.products[i].clone();
            let rows = self.collect_rows(p.id);
            out.push((p, rows));
            i += 1;
        }
        Ok(out)
    }

    /// Returns the product with the given id together with its full,
    /// unpaginated variant assignment list, or `NotFound` when no product
    /// row carries that id.
    pub fn show_product(&self, id: i32) -> (r: Result<
        (Product, Vec<(ProductVariant, Variant)>),
        CatalogError,
    >)
        requires
            self.wf(),
        ensures
            1 <= id <= self@.products.len() ==> {
                &&& r is Ok
                &&& r.unwrap().0@ == self@.products[id - 1]
                &&& pair_views(r.unwrap().1@) == rows_for_product(
                    self@.product_variants,
                    self@.variants,
                    id as int,
                )
            },
            !(1 <= id <= self@.products.len()) ==> r == Err::<
                (Product, Vec<(ProductVariant, Variant)>),
                CatalogError,
            >(CatalogError::NotFound),
    {
        if id >= 1 && (id as usize) <= self.products.len() {
            let p = self.products[(id - 1) as usize].clone();
            let rows = self.collect_rows(id);
            Ok((p, rows))
        } else {
            Err(CatalogError::NotFound)
        }
    }

    /// Returns every product whose name contains `search` as a literal
    /// substring, in insertion order, each paired with its variant
    /// assignments. No result limit; no match yields an empty sequence.
    pub fn search_products(&self, search: String) -> (r: Result<
        Vec<(Product, Vec<(ProductVariant, Variant)>)>,
        CatalogError,
    >)
        requires
            self.wf(),
        ensures
            r is Ok,
            ({
                let rows = r.unwrap()@;
                &&& row_products(rows) == matching_products(self@.products, search@)
                &&& forall|i: int|
                    0 <= i < rows.len() ==> pair_views((#[trigger] rows[i]).1@)
                        == rows_for_product(
                        self@.product_variants,
                        self@.variants,
                        rows[i].0@.id,
                    )
            }),
    {
        let ghost ps = self@.products;
        let mut out: Vec<(Product, Vec<(ProductVariant, Variant)>)> = Vec::new();
        let mut i: usize = 0;
        while i < self.products.len()
            invariant
                self.wf(),
                ps == self@.products,
                i <= self.products.len(),
                row_products(out@) == matching_products(ps.take(i as int), search@),
                forall|j: int|
                    0 <= j < out@.len() ==> pair_views((#[trigger] out@[j]).1@)
                        == rows_for_product(
                        self@.product_variants,
                        self@.variants,
                        out@[j].0@.id,
                    ),
            decreases self.products.len() - i,
        {
            let ghost prev = out@;
            if str_contains(self.products[i].name.as_str(), search.as_str()) {
                let p = self.products[i].clone();
                let rows = self.collect_rows(p.id);
                out.push((p, rows));
                proof {
                    assert(row_products(out@) =~= row_products(prev).push(ps[i as int]));
                }
            }
            proof {
                assert(ps.take(i + 1).drop_last() =~= ps.take(i as int));
                assert(ps.take(i + 1).last() == ps[i as int]);
            }
            i += 1;
        }
        proof {
            assert(ps.take(self.products@.len() as int) =~= ps);
        }
        Ok(out)
    }
}

} // verus!
