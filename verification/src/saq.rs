//! The catalog-facing data: what a fetched product page yields once the
//! HTML and JSON-LD have been turned into plain values, and the pure
//! decisions of the page fetcher.

use vstd::prelude::*;
use vstd::string::StrSliceExecFns;
use crate::detailed_info::DetailedInfo;
use crate::linked_data::{BreadcrumbList, Entity, ItemListElement, LinkedData, ListItem, OfferCatalog, Product, WebPage};
use crate::text::chars_of;

verus! {

/// Why a piece of extracted page data is unusable.
#[derive(Debug, Clone, Copy, PartialEq, Eq, Structural)]
pub enum ExtractError {
    /// The page's linked data holds no product entry.
    MissingProduct,
    /// The page's linked data holds no breadcrumb list.
    MissingBreadcrumbs,
}

/// Contains all the data extracted from a product page.
#[derive(Debug, Clone)]
pub struct ExtractedProduct {
    /// Parsed JSON-LD data contained in a `<script>` tag.
    pub linked_data: Vec<LinkedData>,
    /// Product metadata from the "Detailed Info" section of the page.
    pub detailed_info: DetailedInfo,
}

/// One of the product's categories.
///
/// These typically go from broad ("Wine") to specific ("White wine").
#[derive(Debug, Clone)]
pub struct Category {
    /// The category's name.
    pub name: String,
    /// The category listing URL.
    pub url: String,
}

/// The first product entry among the page's linked data.
pub open spec fn first_ld_product(lds: Seq<LinkedData>) -> Option<Product>
    decreases lds.len(),
{
    if lds.len() == 0 {
        None
    } else if lds[0] is Product {
        Some(lds[0]->Product_0)
    } else {
        first_ld_product(lds.drop_first())
    }
}

proof fn lemma_first_ld_product_at(lds: Seq<LinkedData>, k: int)
    requires
        0 <= k < lds.len(),
        lds[k] is Product,
        forall|i: int| 0 <= i < k ==> !((#[trigger] lds[i]) is Product),
    ensures
        first_ld_product(lds) == Some(lds[k]->Product_0),
    decreases lds.len(),
{
    if k > 0 {
        lemma_first_ld_product_at(lds.drop_first(), k - 1);
    }
}

proof fn lemma_first_ld_product_none(lds: Seq<LinkedData>)
    requires
        forall|i: int| 0 <= i < lds.len() ==> !((#[trigger] lds[i]) is Product),
    ensures
        first_ld_product(lds) is None,
    decreases lds.len(),
{
    if lds.len() > 0 {
        lemma_first_ld_product_none(lds.drop_first());
    }
}

/// The first breadcrumb list among the page's linked data.
pub open spec fn first_breadcrumbs(lds: Seq<LinkedData>) -> Option<BreadcrumbList>
    decreases lds.len(),
{
    if lds.len() == 0 {
        None
    } else if lds[0] is BreadcrumbList {
        Some(lds[0]->BreadcrumbList_0)
    } else {
        first_breadcrumbs(lds.drop_first())
    }
}

proof fn lemma_first_breadcrumbs_at(lds: Seq<LinkedData>, k: int)
    requires
        0 <= k < lds.len(),
        lds[k] is BreadcrumbList,
        forall|i: int| 0 <= i < k ==> !((#[trigger] lds[i]) is BreadcrumbList),
    ensures
        first_breadcrumbs(lds) == Some(lds[k]->BreadcrumbList_0),
    decreases lds.len(),
{
    if k > 0 {
        lemma_first_breadcrumbs_at(lds.drop_first(), k - 1);
    }
}

proof fn lemma_first_breadcrumbs_none(lds: Seq<LinkedData>)
    requires
        forall|i: int| 0 <= i < lds.len() ==> !((#[trigger] lds[i]) is BreadcrumbList),
    ensures
        first_breadcrumbs(lds) is None,
    decreases lds.len(),
{
    if lds.len() > 0 {
        lemma_first_breadcrumbs_none(lds.drop_first());
    }
}

/// The prefix a breadcrumb item's identifier must carry to count as a
/// product category rather than the home page or the product itself.
pub open spec fn category_url_prefix() -> Seq<char> {
    "https://www.saq.com/en/products/"@
}

/// Whether a breadcrumb item names a product category.
pub open spec fn is_category_item(li: ListItem) -> bool {
    category_url_prefix().len() <= li.item.id@.len() && li.item.id@.take(
        category_url_prefix().len() as int,
    ) == category_url_prefix()
}

/// The category names and URLs among the breadcrumb items, in order.
pub open spec fn spec_categories(items: Seq<ListItem>) -> Seq<(Seq<char>, Seq<char>)>
    decreases items.len(),
{
    if items.len() == 0 {
        Seq::empty()
    } else {
        let rest = spec_categories(items.drop_last());
        if is_category_item(items.last()) {
            rest.push((items.last().item.name@, items.last().item.id@))
        } else {
            rest
        }
    }
}

/// Whether `v` starts with the characters of `w`.
fn starts_with_chars(v: &Vec<char>, w: &Vec<char>) -> (r: bool)
    ensures
        r == (w@.len() <= v@.len() && v@.take(w@.len() as int) == w@),
{
    let m = w.len();
    let n = v.len();
    if m > n {
        return false;
    }
    let mut i: usize = 0;
    while i < m
        invariant
            i <= m <= n,
            m == w@.len(),
            n == v@.len(),
            forall|j: int| 0 <= j < i ==> v@[j] == w@[j],
        decreases m - i,
    {
        if v[i] != w[i] {
            proof {
                assert(v@.take(m as int)[i as int] != w@[i as int]);
            }
            return false;
        }
        i += 1;
    }
    proof {
        assert(v@.take(m as int) =~= w@);
    }
    true
}

impl ExtractedProduct {
    /// The JSON-LD product entry of the page, when one is present.
    pub fn get_ld_product(&self) -> (r: Result<&Product, ExtractError>)
        ensures
            match r {
                Ok(p) => first_ld_product(self.linked_data@) == Some(*p),
                Err(e) => e == ExtractError::MissingProduct && first_ld_product(self.linked_data@)
                    is None,
            },
    {
        let n = self.linked_data.len();
        let mut i: usize = 0;
        while i < n
            invariant
                i <= n,
                n == self.linked_data@.len(),
                forall|j: int| 0 <= j < i ==> !((#[trigger] self.linked_data@[j]) is Product),
            decreases n - i,
        {
            match &self.linked_data[i] {
                LinkedData::Product(p) => {
                    proof {
                        lemma_first_ld_product_at(self.linked_data@, i as int);
                    }
                    return Ok(p);
                },
                _ => {},
            }
            i += 1;
        }
        proof {
            lemma_first_ld_product_none(self.linked_data@);
        }
        Err(ExtractError::MissingProduct)
    }

    /// Converts the page's breadcrumb list, when one is present, into
    /// [`Category`] entries: breadcrumbs include the home page, the
    /// listing root and the product itself; only items under the product
    /// listing URL are categories.
    pub fn extract_categories(&self) -> (r: Result<Vec<Category>, ExtractError>)
        ensures
            match r {
                Ok(cats) => first_breadcrumbs(self.linked_data@) matches Some(b) && {
                    let want = spec_categories(b.item_list_element@);
                    &&& cats@.len() == want.len()
                    &&& forall|i: int|
                        0 <= i < want.len() ==> ((#[trigger] cats@[i]).name@, cats@[i].url@)
                            == want[i]
                },
                Err(e) => e == ExtractError::MissingBreadcrumbs && first_breadcrumbs(
                    self.linked_data@,
                ) is None,
            },
    {
        let n = self.linked_data.len();
        let mut i: usize = 0;
        while i < n && !is_breadcrumb_entry(&self.linked_data[i])
            invariant
                i <= n,
                n == self.linked_data@.len(),
                forall|j: int|
                    0 <= j < i ==> !((#[trigger] self.linked_data@[j]) is BreadcrumbList),
            decreases n - i,
        {
            i += 1;
        }
        if i == n {
            proof {
                lemma_first_breadcrumbs_none(self.linked_data@);
            }
            return Err(ExtractError::MissingBreadcrumbs);
        }
        proof {
            lemma_first_breadcrumbs_at(self.linked_data@, i as int);
        }
        let breadcrumbs = match &self.linked_data[i] {
            LinkedData::BreadcrumbList(b) => b,
            _ => {
                proof {
                    assert(false);
                }
                return Err(ExtractError::MissingBreadcrumbs);
            },
        };
        let prefix = chars_of("https://www.saq.com/en/products/");
        let items = &breadcrumbs.item_list_element;
        let m = items.len();
        let mut out: Vec<Category> = Vec::new();
        let mut k: usize = 0;
        while k < m
            invariant
                k <= m,
                m == items@.len(),
                prefix@ == category_url_prefix(),
                out@.len() == spec_categories(items@.take(k as int)).len(),
                forall|i2: int|
                    0 <= i2 < out@.len() ==> ((#[trigger] out@[i2]).name@, out@[i2].url@)
                        == spec_categories(items@.take(k as int))[i2],
            decreases m - k,
        {
            let li = &items[k];
            let idv = chars_of(li.item.id.as_str());
            let is_cat = starts_with_chars(&idv, &prefix);
            proof {
                assert(is_cat == is_category_item(items@[k as int]));
                assert(items@.take(k + 1).drop_last() =~= items@.take(k as int));
                assert(items@.take(k + 1).last() == items@[k as int]);
            }
            if is_cat {
                out.push(Category { name: li.item.name.clone(), url: li.item.id.clone() });
            }
            k += 1;
        }
        proof {
            assert(items@.take(m as int) =~= items@);
        }
        Ok(out)
    }
}

/// Whether a linked-data entry is a breadcrumb list.
fn is_breadcrumb_entry(ld: &LinkedData) -> (r: bool)
    ensures
        r == (*ld is BreadcrumbList),
{
    match ld {
        LinkedData::BreadcrumbList(_) => true,
        _ => false,
    }
}

/// Decides what a fetched catalog page means. The catalog echoes back
/// the page it actually rendered: a different page than the one
/// requested means the listing wrapped around past its last page, which
/// ends the crawl rather than failing it.
pub fn page_outcome(requested: u32, rendered: u32, products: Vec<Product>) -> (r: Option<
    Vec<Product>,
>)
    ensures
        rendered == requested ==> r == Some(products),
        rendered != requested ==> r is None,
{
    if rendered == requested {
        Some(products)
    } else {
        None
    }
}

/// The first offer catalog carried by a web-page entry of the page's
/// linked data.
pub open spec fn first_offer_catalog(lds: Seq<LinkedData>) -> Option<OfferCatalog>
    decreases lds.len(),
{
    if lds.len() == 0 {
        None
    } else if lds[0] matches LinkedData::WebPage(wp) && wp.main_entity matches Some(
        Entity::OfferCatalog(_),
    ) {
        Some(lds[0]->WebPage_0.main_entity->Some_0->OfferCatalog_0)
    } else {
        first_offer_catalog(lds.drop_first())
    }
}

/// The products listed in an offer catalog's item list.
pub open spec fn spec_catalog_products(items: Seq<ItemListElement>) -> Seq<Product>
    decreases items.len(),
{
    if items.len() == 0 {
        Seq::empty()
    } else {
        let rest = spec_catalog_products(items.drop_first());
        if items[0] is Product {
            seq![items[0]->Product_0] + rest
        } else {
            rest
        }
    }
}

/// The product stubs of a catalog page: the products listed by the
/// page's offer catalog, or nothing when the page carries no catalog.
pub fn catalog_products(lds: Vec<LinkedData>) -> (r: Option<Vec<Product>>)
    ensures
        match r {
            Some(ps) => first_offer_catalog(lds@) matches Some(c) && ps@ == spec_catalog_products(
                c.item_list_element@,
            ),
            None => first_offer_catalog(lds@) is None,
        },
{
    let mut rest = lds;
    let ghost orig = rest@;
    while rest.len() > 0
        invariant
            orig == lds@,
            first_offer_catalog(orig) == first_offer_catalog(rest@),
        decreases rest@.len(),
    {
        let ghost before = rest@;
        let ld = rest.remove(0);
        proof {
            assert(before.drop_first() =~= rest@);
        }
        match ld {
            LinkedData::WebPage(wp) => {
                match wp.main_entity {
                    Some(Entity::OfferCatalog(cat)) => {
                        let ghost gcat = cat;
                        proof {
                            assert(before[0] == ld);
                            assert(first_offer_catalog(before) == Some(gcat));
                        }
                        let mut items = cat.item_list_element;
                        let ghost all = items@;
                        proof {
                            assert(all == gcat.item_list_element@);
                        }
                        let mut out: Vec<Product> = Vec::new();
                        while items.len() > 0
                            invariant
                                first_offer_catalog(lds@) == Some(gcat),
                                all == gcat.item_list_element@,
                                spec_catalog_products(all) == out@ + spec_catalog_products(items@),
                            decreases items@.len(),
                        {
                            let ghost ib = items@;
                            let e = items.remove(0);
                            proof {
                                assert(ib.drop_first() =~= items@);
                            }
                            match e {
                                ItemListElement::Product(p) => {
                                    proof {
                                        assert(out@ + (seq![ib[0]->Product_0]
                                            + spec_catalog_products(ib.drop_first())) =~= (out@
                                            + seq![ib[0]->Product_0]) + spec_catalog_products(
                                            ib.drop_first(),
                                        ));
                                    }
                                    out.push(p);
                                },
                                _ => {},
                            }
                        }
                        proof {
                            assert(out@ + spec_catalog_products(items@) =~= out@);
                            assert(first_offer_catalog(lds@) == Some(gcat));
                            assert(out@ == spec_catalog_products(gcat.item_list_element@));
                        }
                        return Some(out);
                    },
                    _ => {},
                }
            },
            _ => {},
        }
    }
    None
}

} // verus!
