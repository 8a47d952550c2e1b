//! Serialization of the closed enumerations into the fixed strings the
//! store admits through its membership checks.

use vstd::prelude::*;
use crate::detailed_info::{ProductOfQuebec, SugarContentEquality};
use crate::linked_data::{ItemAvailability, OfferItemCondition};

verus! {

/// Utility trait to add database serialization logic to types that
/// shouldn't have to know or care about it.
pub trait DbSerialize {
    /// The canonical stored form of this value.
    spec fn db_repr(&self) -> Seq<char>;

    /// Given `&self`, return the canonical string stored for this value.
    ///
    /// Every string returned here is among the values the store's
    /// membership checks admit for the column it is written to.
    fn db_serialize(&self) -> (r: &str)
        ensures
            r@ == self.db_repr(),
    ;
}

impl DbSerialize for ItemAvailability {
    open spec fn db_repr(&self) -> Seq<char> {
        match self {
            ItemAvailability::BackOrder => "back_order"@,
            ItemAvailability::Discontinued => "discontinued"@,
            ItemAvailability::InStock => "in_stock"@,
            ItemAvailability::InStoreOnly => "in_store_only"@,
            ItemAvailability::LimitedAvailability => "limited_availability"@,
            ItemAvailability::OnlineOnly => "online_only"@,
            ItemAvailability::OutOfStock => "out_of_stock"@,
            ItemAvailability::PreOrder => "pre_order"@,
            ItemAvailability::PreSale => "pre_sale"@,
            ItemAvailability::SoldOut => "sold_out"@,
        }
    }

    fn db_serialize(&self) -> (r: &str) {
        match self {
            ItemAvailability::BackOrder => "back_order",
            ItemAvailability::Discontinued => "discontinued",
            ItemAvailability::InStock => "in_stock",
            ItemAvailability::InStoreOnly => "in_store_only",
            ItemAvailability::LimitedAvailability => "limited_availability",
            ItemAvailability::OnlineOnly => "online_only",
            ItemAvailability::OutOfStock => "out_of_stock",
            ItemAvailability::PreOrder => "pre_order",
            ItemAvailability::PreSale => "pre_sale",
            ItemAvailability::SoldOut => "sold_out",
        }
    }
}

impl DbSerialize for OfferItemCondition {
    open spec fn db_repr(&self) -> Seq<char> {
        match self {
            OfferItemCondition::Damaged => "damaged"@,
            OfferItemCondition::New => "new"@,
            OfferItemCondition::Refurbished => "refurbished"@,
            OfferItemCondition::Used => "used"@,
        }
    }

    fn db_serialize(&self) -> (r: &str) {
        match self {
            OfferItemCondition::Damaged => "damaged",
            OfferItemCondition::New => "new",
            OfferItemCondition::Refurbished => "refurbished",
            OfferItemCondition::Used => "used",
        }
    }
}

impl DbSerialize for ProductOfQuebec {
    open spec fn db_repr(&self) -> Seq<char> {
        match self {
            ProductOfQuebec::BottledIn => "bottled_in_quebec"@,
            ProductOfQuebec::MadeIn => "made_in_quebec"@,
            ProductOfQuebec::Origine => "origine_quebec"@,
        }
    }

    fn db_serialize(&self) -> (r: &str) {
        match self {
            ProductOfQuebec::BottledIn => "bottled_in_quebec",
            ProductOfQuebec::MadeIn => "made_in_quebec",
            ProductOfQuebec::Origine => "origine_quebec",
        }
    }
}

impl DbSerialize for SugarContentEquality {
    open spec fn db_repr(&self) -> Seq<char> {
        match self {
            SugarContentEquality::GreaterThan => ">"@,
            SugarContentEquality::LessThan => "<"@,
            SugarContentEquality::Equal => "="@,
        }
    }

    fn db_serialize(&self) -> (r: &str) {
        match self {
            SugarContentEquality::GreaterThan => ">",
            SugarContentEquality::LessThan => "<",
            SugarContentEquality::Equal => "=",
        }
    }
}

} // verus!
