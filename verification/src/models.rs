//! Entity records mirroring the rows of the three relations, the transient
//! input records used to shape product creation, and their ghost views.
//!
//! Money is carried in hundredths of the currency unit (`cost_cents`), so
//! that costs stay exact integer values throughout the store.

use vstd::prelude::*;

verus! {

/// One row of the `products` relation.
#[derive(Debug)]
pub struct Product {
    pub id: i32,
    pub name: String,
    pub cost_cents: u64,
    pub active: bool,
}

/// Insertion payload for one `products` row; the id is generated by the store.
#[derive(Debug)]
pub struct NewProduct {
    pub name: String,
    pub cost_cents: u64,
    pub active: bool,
}

/// One row of the `variants` relation: a named dimension of variation,
/// shared across products (at most one row per distinct name).
#[derive(Debug)]
pub struct Variant {
    pub id: i32,
    pub name: String,
}

/// Insertion payload for one `variants` row.
#[derive(Debug)]
pub struct NewVariant {
    pub name: String,
}

/// One row of the `products_variants` join relation: one concrete variant
/// assignment, e.g. variant "size" with value "12" on one product.
#[derive(Debug)]
pub struct ProductVariant {
    pub id: i32,
    pub variant_id: i32,
    pub product_id: i32,
    pub value: Option<String>,
}

/// Insertion payload for one `products_variants` row.
#[derive(Debug)]
pub struct NewProductVariant {
    pub product_id: i32,
    pub variant_id: i32,
    pub value: Option<String>,
}

/// Transient input record: one variant dimension together with the values to
/// attach under it, in supply order. Not persisted.
#[derive(Debug)]
pub struct NewVariantValue {
    pub variant: NewVariant,
    pub values: Vec<Option<String>>,
}

/// Transient input record for product creation: the product payload plus an
/// ordered list of variant dimensions and their values. Not persisted.
#[derive(Debug)]
pub struct NewCompleteProduct {
    pub product: NewProduct,
    pub variants: Vec<NewVariantValue>,
}

/// The two error kinds of the store: a lookup by id that matched no row
/// (only from `show_product`), and a failed storage operation. The
/// in-memory engine never fails a storage operation — its capacity limits
/// are preconditions instead — so `StorageFailure` is the kind a caller
/// would see from a fallible storage engine behind the same contract.
#[derive(Debug, Clone, Copy, PartialEq, Eq, Structural)]
pub enum CatalogError {
    NotFound,
    StorageFailure,
}

/// Ghost image of a `products` row.
#[verifier::ext_equal]
pub ghost struct ProductView {
    pub id: int,
    pub name: Seq<char>,
    pub cost_cents: int,
    pub active: bool,
}

/// Ghost image of a `NewProduct` payload.
#[verifier::ext_equal]
pub ghost struct NewProductView {
    pub name: Seq<char>,
    pub cost_cents: int,
    pub active: bool,
}

/// Ghost image of a `variants` row.
#[verifier::ext_equal]
pub ghost struct VariantView {
    pub id: int,
    pub name: Seq<char>,
}

/// Ghost image of a `products_variants` row.
#[verifier::ext_equal]
pub ghost struct ProductVariantView {
    pub id: int,
    pub variant_id: int,
    pub product_id: int,
    pub value: Option<Seq<char>>,
}

/// Ghost image of a `NewVariantValue` record: the dimension name and the
/// values supplied under it, in order.
#[verifier::ext_equal]
pub ghost struct NewVariantValueView {
    pub name: Seq<char>,
    pub values: Seq<Option<Seq<char>>>,
}

/// Ghost image of a `NewCompleteProduct` record.
#[verifier::ext_equal]
pub ghost struct NewCompleteProductView {
    pub product: NewProductView,
    pub variants: Seq<NewVariantValueView>,
}

impl View for Product {
    type V = ProductView;

    open spec fn view(&self) -> ProductView {
        ProductView {
            id: self.id as int,
            name: self.name@,
            cost_cents: self.cost_cents as int,
            active: self.active,
        }
    }
}

impl View for NewProduct {
    type V = NewProductView;

    open spec fn view(&self) -> NewProductView {
        NewProductView { name: self.name@, cost_cents: self.cost_cents as int, active: self.active }
    }
}

impl View for Variant {
    type V = VariantView;

    open spec fn view(&self) -> VariantView {
        VariantView { id: self.id as int, name: self.name@ }
    }
}

impl View for ProductVariant {
    type V = ProductVariantView;

    open spec fn view(&self) -> ProductVariantView {
        ProductVariantView {
            id: self.id as int,
            variant_id: self.variant_id as int,
            product_id: self.product_id as int,
            value: self.value.deep_view(),
        }
    }
}

impl View for NewVariantValue {
    type V = NewVariantValueView;

    open spec fn view(&self) -> NewVariantValueView {
        NewVariantValueView { name: self.variant.name@, values: self.values.deep_view() }
    }
}

impl View for NewCompleteProduct {
    type V = NewCompleteProductView;

    open spec fn view(&self) -> NewCompleteProductView {
        NewCompleteProductView {
            product: self.product@,
            variants: self.variants@.map_values(|v: NewVariantValue| v@),
        }
    }
}

impl Clone for Product {
    fn clone(&self) -> (r: Product)
        ensures
            r@ == self@,
    {
        Product {
            id: self.id,
            name: self.name.clone(),
            cost_cents: self.cost_cents,
            active: self.active,
        }
    }
}

impl Clone for Variant {
    fn clone(&self) -> (r: Variant)
        ensures
            r@ == self@,
    {
        Variant { id: self.id, name: self.name.clone() }
    }
}

impl Clone for ProductVariant {
    fn clone(&self) -> (r: ProductVariant)
        ensures
            r@ == self@,
    {
        ProductVariant {
            id: self.id,
            variant_id: self.variant_id,
            product_id: self.product_id,
            value: clone_opt_string(&self.value),
        }
    }
}

/// Copies an optional text value, preserving its ghost image.
pub fn clone_opt_string(v: &Option<String>) -> (r: Option<String>)
    ensures
        r.deep_view() == v.deep_view(),
{
    match v {
        Some(s) => Some(s.clone()),
        None => None,
    }
}

} // verus!
