//! Just enough JSON-LD/Schema.org structure to hold what the catalog's
//! pages embed. Values of these types are built outside the library from
//! the raw JSON and handed in as plain data.

use vstd::prelude::*;
use crate::detailed_info::Decimal;

verus! {

/// The subset of Schema.org `Thing` found in the catalog's JSON-LD.
#[derive(Debug, Clone)]
pub enum LinkedData {
    /// A web site entry, carrying nothing the crawler reads.
    WebSite,
    /// A [`BreadcrumbList`].
    BreadcrumbList(BreadcrumbList),
    /// A [`WebPage`].
    WebPage(WebPage),
    /// A [`Product`].
    Product(Product),
    /// Fallback for anything else.
    Other,
}

/// Schema.org `BreadcrumbList`.
#[derive(Debug, Clone)]
pub struct BreadcrumbList {
    /// The list's items, assumed to be Schema.org `ListItem`s.
    pub item_list_element: Vec<ListItem>,
}

/// Schema.org `itemListElement`.
#[derive(Debug, Clone)]
pub enum ItemListElement {
    /// A [`ListItem`].
    ListItem(ListItem),
    /// A [`Product`].
    Product(Product),
    /// Fallback for anything else.
    Other,
}

/// One element of a Schema.org item list.
#[derive(Debug, Clone)]
pub struct ListItem {
    /// The entity represented.
    pub item: Item,
    /// The element's position in the list.
    pub position: i32,
}

/// The entity a [`ListItem`] points at.
#[derive(Debug, Clone)]
pub struct Item {
    /// The entity's node identifier, a URL.
    pub id: String,
    /// Schema.org `name`.
    pub name: String,
}

/// Schema.org `WebPage`.
#[derive(Debug, Clone)]
pub struct WebPage {
    /// Schema.org `mainEntity`.
    pub main_entity: Option<Entity>,
    /// Schema.org `url`.
    pub url: Option<String>,
}

/// Subset of Schema.org `Thing` found in the catalog's `WebPage`s.
#[derive(Debug, Clone)]
pub enum Entity {
    /// An [`OfferCatalog`].
    OfferCatalog(OfferCatalog),
    /// Fallback for anything else.
    Other,
}

/// Schema.org `OfferCatalog`.
#[derive(Debug, Clone)]
pub struct OfferCatalog {
    /// Schema.org `name`.
    pub name: String,
    /// Schema.org `url`.
    pub url: String,
    /// Schema.org `numberOfItems`.
    pub number_of_items: i32,
    /// Schema.org `itemListElement`.
    pub item_list_element: Vec<ItemListElement>,
}

/// Schema.org `Product`.
#[derive(Debug, Clone)]
pub struct Product {
    /// Schema.org `description`.
    pub description: String,
    /// Schema.org `image`.
    pub image: String,
    /// Schema.org `name`.
    pub name: String,
    /// Schema.org `offers`.
    pub offers: Offer,
    /// Schema.org `sku`; for this catalog it equals the product code.
    pub sku: String,
    /// Schema.org `category`.
    pub category: Option<String>,
}

/// Schema.org `Offer`.
#[derive(Debug, Clone)]
pub struct Offer {
    /// See [`ItemAvailability`].
    pub availability: ItemAvailability,
    /// See [`OfferItemCondition`].
    pub item_condition: OfferItemCondition,
    /// Schema.org `price`, in Canadian dollars, as an exact decimal.
    pub price: Decimal,
    /// Schema.org `priceCurrency`.
    pub price_currency: String,
    /// Schema.org `url`; for this catalog, the product page URL.
    pub url: String,
}

/// Schema.org `ItemAvailability`.
#[derive(Debug, Clone, Copy, PartialEq, Eq, Structural)]
pub enum ItemAvailability {
    /// Schema.org `BackOrder`.
    BackOrder,
    /// Schema.org `Discontinued`.
    Discontinued,
    /// Schema.org `InStock`.
    InStock,
    /// Schema.org `InStoreOnly`.
    InStoreOnly,
    /// Schema.org `LimitedAvailability`.
    LimitedAvailability,
    /// Schema.org `OnlineOnly`.
    OnlineOnly,
    /// Schema.org `OutOfStock`.
    OutOfStock,
    /// Schema.org `PreOrder`.
    PreOrder,
    /// Schema.org `PreSale`.
    PreSale,
    /// Schema.org `SoldOut`.
    SoldOut,
}

/// Schema.org `OfferItemCondition`.
#[derive(Debug, Clone, Copy, PartialEq, Eq, Structural)]
pub enum OfferItemCondition {
    /// Schema.org `DamagedCondition`.
    Damaged,
    /// Schema.org `NewCondition`.
    New,
    /// Schema.org `RefurbishedCondition`.
    Refurbished,
    /// Schema.org `UsedCondition`.
    Used,
}

} // verus!
