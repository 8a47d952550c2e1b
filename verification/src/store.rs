//! The relational store: products, name-keyed lookup dimensions, categories,
//! and the association rows joining them.
//!
//! The store enforces what a relational schema would: row ids are assigned
//! in insertion order, names never repeat inside a lookup table, referenced
//! ids must exist, and the enumerated columns only admit their fixed string
//! values. Every mutating operation says exactly which rows it touches.
//!
//! Timestamps come from a logical clock that ticks once per successful
//! mutating call, so "`updated_at` was refreshed" is the exact statement
//! "`updated_at` equals the new clock value".

use vstd::prelude::*;

verus! {

/// Why a store operation failed.
#[derive(Debug, Clone, Copy, PartialEq, Eq, Structural)]
pub enum StoreError {
    /// A referenced row id does not exist in the table it must point into.
    ForeignKey,
    /// An enumerated column was handed a string outside its admitted values.
    Check,
    /// The store can hold no more rows, or its clock can tick no further.
    Full,
}

/// One row of a name-keyed lookup table.
#[derive(Debug, Clone)]
pub struct DimensionRow {
    /// The row id, assigned in insertion order starting at 1.
    pub id: i64,
    /// The row's name, unique within its table.
    pub name: String,
    /// Clock value at insertion; never changed afterwards.
    pub created_at: u64,
    /// Clock value of the last write to this row.
    pub updated_at: u64,
}

/// The first row whose name reads `name`, searching front to back.
pub open spec fn dim_row_with(rows: Seq<DimensionRow>, name: Seq<char>) -> Option<DimensionRow>
    decreases rows.len(),
{
    if rows.len() == 0 {
        None
    } else if rows[0].name@ == name {
        Some(rows[0])
    } else {
        dim_row_with(rows.drop_first(), name)
    }
}

proof fn lemma_dim_row_with_props(rows: Seq<DimensionRow>, name: Seq<char>)
    ensures
        match dim_row_with(rows, name) {
            Some(r) => exists|i: int|
                0 <= i < rows.len() && rows[i] == r && (#[trigger] rows[i]).name@ == name,
            None => forall|i: int| 0 <= i < rows.len() ==> (#[trigger] rows[i]).name@ != name,
        },
    decreases rows.len(),
{
    if rows.len() > 0 && rows[0].name@ != name {
        lemma_dim_row_with_props(rows.drop_first(), name);
        match dim_row_with(rows, name) {
            Some(r) => {
                let i = choose|i: int|
                    0 <= i < rows.drop_first().len() && rows.drop_first()[i] == r && (
                    #[trigger] rows.drop_first()[i]).name@ == name;
                assert(rows[i + 1] == r && rows[i + 1].name@ == name);
            },
            None => {
                assert(forall|i: int|
                    1 <= i < rows.len() ==> (#[trigger] rows[i]).name@ == rows.drop_first()[i
                        - 1].name@);
            },
        }
    }
}

proof fn lemma_dim_row_with_at(rows: Seq<DimensionRow>, name: Seq<char>, k: int)
    requires
        0 <= k < rows.len(),
        rows[k].name@ == name,
        forall|i: int| 0 <= i < k ==> (#[trigger] rows[i]).name@ != name,
    ensures
        dim_row_with(rows, name) == Some(rows[k]),
    decreases rows.len(),
{
    if k > 0 {
        lemma_dim_row_with_at(rows.drop_first(), name, k - 1);
    }
}

proof fn lemma_dim_row_with_none(rows: Seq<DimensionRow>, name: Seq<char>)
    requires
        forall|i: int| 0 <= i < rows.len() ==> (#[trigger] rows[i]).name@ != name,
    ensures
        dim_row_with(rows, name) is None,
    decreases rows.len(),
{
    if rows.len() > 0 {
        lemma_dim_row_with_none(rows.drop_first(), name);
    }
}

/// A name-keyed lookup table (producers, colors, countries, ...).
#[derive(Debug, Clone)]
pub struct DimensionTable {
    /// The rows, in insertion order.
    pub rows: Vec<DimensionRow>,
}

impl DimensionTable {
    /// Rows are numbered 1.. in insertion order and names never repeat.
    pub open spec fn wf(self) -> bool {
        &&& forall|i: int| 0 <= i < self.rows@.len() ==> (#[trigger] self.rows@[i]).id == i + 1
        &&& forall|i: int, j: int|
            #![trigger self.rows@[i], self.rows@[j]]
            0 <= i < j < self.rows@.len() ==> self.rows@[i].name@ != self.rows@[j].name@
    }

    /// Every timestamp in the table is at most `c`.
    pub open spec fn ts_le(self, c: u64) -> bool {
        forall|i: int|
            0 <= i < self.rows@.len() ==> (#[trigger] self.rows@[i]).created_at <= c
                && self.rows@[i].updated_at <= c
    }

    /// The row stored under `name`, if any.
    pub open spec fn row_with(self, name: Seq<char>) -> Option<DimensionRow> {
        dim_row_with(self.rows@, name)
    }

    /// Looks the name up, returning the id of its row.
    pub fn find(&self, name: &str) -> (r: Option<i64>)
        requires
            self.wf(),
        ensures
            match r {
                Some(id) => self.row_with(name@) matches Some(row) && row.id == id,
                None => self.row_with(name@) is None,
            },
    {
        let key = name.to_owned();
        let n = self.rows.len();
        let mut i: usize = 0;
        while i < n
            invariant
                self.wf(),
                i <= n,
                n == self.rows@.len(),
                key@ == name@,
                forall|j: int| 0 <= j < i ==> (#[trigger] self.rows@[j]).name@ != name@,
            decreases n - i,
        {
            let row = &self.rows[i];
            if row.name == key {
                proof {
                    lemma_dim_row_with_at(self.rows@, name@, i as int);
                }
                return Some(row.id);
            }
            i += 1;
        }
        proof {
            lemma_dim_row_with_none(self.rows@, name@);
        }
        None
    }

    /// Appends a row for a name not yet present, stamped with `now`.
    pub fn insert_new(&mut self, name: &str, now: u64) -> (r: Result<i64, StoreError>)
        requires
            old(self).wf(),
            old(self).row_with(name@) is None,
        ensures
            final(self).wf(),
            match r {
                Ok(id) => {
                    &&& old(self).rows@.len() + 1 <= i64::MAX
                    &&& id == old(self).rows@.len() + 1
                    &&& final(self).rows@.len() == old(self).rows@.len() + 1
                    &&& forall|i: int|
                        0 <= i < old(self).rows@.len() ==> final(self).rows@[i] == old(self).rows@[i]
                    &&& final(self).rows@.last().id == id
                    &&& final(self).rows@.last().name@ == name@
                    &&& final(self).rows@.last().created_at == now
                    &&& final(self).rows@.last().updated_at == now
                    &&& final(self).row_with(name@) == Some(final(self).rows@.last())
                },
                Err(e) => {
                    &&& e == StoreError::Full
                    &&& old(self).rows@.len() + 1 > i64::MAX
                    &&& *final(self) == *old(self)
                },
            },
    {
        let n = self.rows.len();
        if n as u64 >= 0x7fff_ffff_ffff_ffffu64 {
            return Err(StoreError::Full);
        }
        let id = (n as i64) + 1;
        let row = DimensionRow { id, name: name.to_owned(), created_at: now, updated_at: now };
        proof {
            lemma_dim_row_with_props(self.rows@, name@);
        }
        self.rows.push(row);
        proof {
            lemma_dim_row_with_at(self.rows@, name@, n as int);
        }
        Ok(id)
    }
}

/// One row of the category table.
#[derive(Debug, Clone)]
pub struct CategoryRow {
    /// The row id, assigned in insertion order starting at 1.
    pub id: i64,
    /// The category's name, unique within the table.
    pub name: String,
    /// The category listing URL.
    pub url: String,
    /// The id of the parent category, for chains from broad to specific.
    pub parent_id: Option<i64>,
    /// Clock value at insertion; never changed afterwards.
    pub created_at: u64,
    /// Clock value of the last write that changed this row.
    pub updated_at: u64,
}

/// The first category row whose name reads `name`.
pub open spec fn cat_row_with(rows: Seq<CategoryRow>, name: Seq<char>) -> Option<CategoryRow>
    decreases rows.len(),
{
    if rows.len() == 0 {
        None
    } else if rows[0].name@ == name {
        Some(rows[0])
    } else {
        cat_row_with(rows.drop_first(), name)
    }
}

proof fn lemma_cat_row_with_at(rows: Seq<CategoryRow>, name: Seq<char>, k: int)
    requires
        0 <= k < rows.len(),
        rows[k].name@ == name,
        forall|i: int| 0 <= i < k ==> (#[trigger] rows[i]).name@ != name,
    ensures
        cat_row_with(rows, name) == Some(rows[k]),
    decreases rows.len(),
{
    if k > 0 {
        lemma_cat_row_with_at(rows.drop_first(), name, k - 1);
    }
}

proof fn lemma_cat_row_with_props(rows: Seq<CategoryRow>, name: Seq<char>)
    ensures
        match cat_row_with(rows, name) {
            Some(r) => exists|i: int|
                0 <= i < rows.len() && rows[i] == r && (#[trigger] rows[i]).name@ == name,
            None => forall|i: int| 0 <= i < rows.len() ==> (#[trigger] rows[i]).name@ != name,
        },
    decreases rows.len(),
{
    if rows.len() > 0 && rows[0].name@ != name {
        lemma_cat_row_with_props(rows.drop_first(), name);
        match cat_row_with(rows, name) {
            Some(r) => {
                let i = choose|i: int|
                    0 <= i < rows.drop_first().len() && rows.drop_first()[i] == r && (
                    #[trigger] rows.drop_first()[i]).name@ == name;
                assert(rows[i + 1] == r && rows[i + 1].name@ == name);
            },
            None => {
                assert(forall|i: int|
                    1 <= i < rows.len() ==> (#[trigger] rows[i]).name@ == rows.drop_first()[i
                        - 1].name@);
            },
        }
    }
}

proof fn lemma_cat_row_with_none(rows: Seq<CategoryRow>, name: Seq<char>)
    requires
        forall|i: int| 0 <= i < rows.len() ==> (#[trigger] rows[i]).name@ != name,
    ensures
        cat_row_with(rows, name) is None,
    decreases rows.len(),
{
    if rows.len() > 0 {
        lemma_cat_row_with_none(rows.drop_first(), name);
    }
}

/// The category table: name-keyed like a dimension, but each row also
/// carries a listing URL and an optional parent category.
#[derive(Debug, Clone)]
pub struct CategoryTable {
    /// The rows, in insertion order.
    pub rows: Vec<CategoryRow>,
}

impl CategoryTable {
    /// Rows are numbered 1.. in insertion order, names never repeat, and
    /// every parent reference points at an existing row.
    pub open spec fn wf(self) -> bool {
        &&& forall|i: int| 0 <= i < self.rows@.len() ==> (#[trigger] self.rows@[i]).id == i + 1
        &&& forall|i: int, j: int|
            #![trigger self.rows@[i], self.rows@[j]]
            0 <= i < j < self.rows@.len() ==> self.rows@[i].name@ != self.rows@[j].name@
        &&& forall|i: int|
            0 <= i < self.rows@.len() ==> match (#[trigger] self.rows@[i]).parent_id {
                None => true,
                Some(p) => 1 <= p <= self.rows@.len(),
            }
    }

    /// Every timestamp in the table is at most `c`.
    pub open spec fn ts_le(self, c: u64) -> bool {
        forall|i: int|
            0 <= i < self.rows@.len() ==> (#[trigger] self.rows@[i]).created_at <= c
                && self.rows@[i].updated_at <= c
    }

    /// The row stored under `name`, if any.
    pub open spec fn row_with(self, name: Seq<char>) -> Option<CategoryRow> {
        cat_row_with(self.rows@, name)
    }

    /// Looks the name up, returning the index of its row.
    fn find_index(&self, name: &str) -> (r: Option<usize>)
        requires
            self.wf(),
        ensures
            match r {
                Some(i) => i < self.rows@.len() && self.row_with(name@) == Some(self.rows@[i as int])
                    && self.rows@[i as int].id == i + 1 && self.rows@[i as int].name@ == name@,
                None => self.row_with(name@) is None,
            },
    {
        let key = name.to_owned();
        let n = self.rows.len();
        let mut i: usize = 0;
        while i < n
            invariant
                self.wf(),
                i <= n,
                n == self.rows@.len(),
                key@ == name@,
                forall|j: int| 0 <= j < i ==> (#[trigger] self.rows@[j]).name@ != name@,
            decreases n - i,
    {
            let row = &self.rows[i];
            if row.name == key {
                proof {
                    assert(self.rows@[i as int].name@ == name@);
                    lemma_cat_row_with_at(self.rows@, name@, i as int);
                    assert(self.row_with(name@) == Some(self.rows@[i as int]));
                    assert(self.rows@[i as int].id == i as int + 1);
                }
                return Some(i);
            }
            i += 1;
        }
        proof {
            lemma_cat_row_with_none(self.rows@, name@);
        }
        None
    }
}

/// Contains the necessary parameters to upsert a row of the product table.
///
/// Callers are responsible for resolving the `*_id` fields through the
/// dimension upserts first; the store checks each against its table.
/// The fields are kept in alphabetical order to make reasoning about which
/// fields a query touches easier.
#[derive(Debug, Clone)]
pub struct ProductUpsertFields {
    /// The alcohol by volume percentage, as an exact decimal.
    pub abv_percentage: Option<crate::detailed_info::Decimal>,
    /// The canonical string of an availability value.
    pub availability: String,
    /// A row id of the classifications table.
    pub classification_id: Option<i64>,
    /// A row id of the colors table.
    pub color_id: Option<i64>,
    /// The number of containers for the given product (i.e. 6 cans).
    pub container_count: Option<u8>,
    /// The number of milliliters contained in each container.
    pub container_milliliters: Option<u32>,
    /// A row id of the countries table.
    pub country_id: Option<i64>,
    /// The product's description.
    pub description: String,
    /// A row id of the designations-of-origin table.
    pub designation_of_origin_id: Option<i64>,
    /// A URL for an image of the product.
    pub image_url: String,
    /// The canonical string of an item-condition value.
    pub item_condition: String,
    /// The product's name.
    pub name: String,
    /// The product's price in Canadian dollars, as an exact decimal.
    pub price_cad: crate::detailed_info::Decimal,
    /// A row id of the producers table.
    pub producer_id: Option<i64>,
    /// The canonical string of a "Product of Québec" value.
    pub product_of_quebec: Option<String>,
    /// A row id of the promoting-agents table.
    pub promoting_agent_id: Option<i64>,
    /// A row id of the regions table.
    pub region_id: Option<i64>,
    /// A row id of the regulated-designations table.
    pub regulated_designation_id: Option<i64>,
    /// The catalog's unique product identifier: the upsert key.
    pub saq_code: String,
    /// The canonical string of a sugar-qualifier value.
    pub sugar_content_equality: Option<String>,
    /// The number of grams of sugar per liter, as an exact decimal.
    pub sugar_content_grams_per_liter: Option<crate::detailed_info::Decimal>,
    /// The product's UPC code.
    pub upc_code: Option<String>,
}

/// One row of the product table.
#[derive(Debug, Clone)]
pub struct ProductRow {
    /// The row id, assigned in insertion order starting at 1.
    pub id: i64,
    /// The product's attributes, keyed by `fields.saq_code`.
    pub fields: ProductUpsertFields,
    /// Clock value at insertion; never changed afterwards.
    pub created_at: u64,
    /// Clock value of the last write to this row.
    pub updated_at: u64,
}

/// The first product row whose code reads `code`.
pub open spec fn prod_row_with(rows: Seq<ProductRow>, code: Seq<char>) -> Option<ProductRow>
    decreases rows.len(),
{
    if rows.len() == 0 {
        None
    } else if rows[0].fields.saq_code@ == code {
        Some(rows[0])
    } else {
        prod_row_with(rows.drop_first(), code)
    }
}

proof fn lemma_prod_row_with_at(rows: Seq<ProductRow>, code: Seq<char>, k: int)
    requires
        0 <= k < rows.len(),
        rows[k].fields.saq_code@ == code,
        forall|i: int| 0 <= i < k ==> (#[trigger] rows[i]).fields.saq_code@ != code,
    ensures
        prod_row_with(rows, code) == Some(rows[k]),
    decreases rows.len(),
{
    if k > 0 {
        lemma_prod_row_with_at(rows.drop_first(), code, k - 1);
    }
}

proof fn lemma_prod_row_with_props(rows: Seq<ProductRow>, code: Seq<char>)
    ensures
        match prod_row_with(rows, code) {
            Some(r) => exists|i: int|
                0 <= i < rows.len() && rows[i] == r && (#[trigger] rows[i]).fields.saq_code@
                    == code,
            None => forall|i: int|
                0 <= i < rows.len() ==> (#[trigger] rows[i]).fields.saq_code@ != code,
        },
    decreases rows.len(),
{
    if rows.len() > 0 && rows[0].fields.saq_code@ != code {
        lemma_prod_row_with_props(rows.drop_first(), code);
        match prod_row_with(rows, code) {
            Some(r) => {
                let i = choose|i: int|
                    0 <= i < rows.drop_first().len() && rows.drop_first()[i] == r && (
                    #[trigger] rows.drop_first()[i]).fields.saq_code@ == code;
                assert(rows[i + 1] == r && rows[i + 1].fields.saq_code@ == code);
            },
            None => {
                assert(forall|i: int|
                    1 <= i < rows.len() ==> (#[trigger] rows[i]).fields.saq_code@
                        == rows.drop_first()[i - 1].fields.saq_code@);
            },
        }
    }
}

proof fn lemma_prod_row_with_none(rows: Seq<ProductRow>, code: Seq<char>)
    requires
        forall|i: int| 0 <= i < rows.len() ==> (#[trigger] rows[i]).fields.saq_code@ != code,
    ensures
        prod_row_with(rows, code) is None,
    decreases rows.len(),
{
    if rows.len() > 0 {
        lemma_prod_row_with_none(rows.drop_first(), code);
    }
}

/// The product table, keyed by the catalog's product code.
#[derive(Debug, Clone)]
pub struct ProductTable {
    /// The rows, in insertion order.
    pub rows: Vec<ProductRow>,
}

impl ProductTable {
    /// Rows are numbered 1.. in insertion order and codes never repeat.
    pub open spec fn wf(self) -> bool {
        &&& forall|i: int| 0 <= i < self.rows@.len() ==> (#[trigger] self.rows@[i]).id == i + 1
        &&& forall|i: int, j: int|
            #![trigger self.rows@[i], self.rows@[j]]
            0 <= i < j < self.rows@.len() ==> self.rows@[i].fields.saq_code@
                != self.rows@[j].fields.saq_code@
    }

    /// Every timestamp in the table is at most `c`.
    pub open spec fn ts_le(self, c: u64) -> bool {
        forall|i: int|
            0 <= i < self.rows@.len() ==> (#[trigger] self.rows@[i]).created_at <= c
                && self.rows@[i].updated_at <= c
    }

    /// The row stored under `code`, if any.
    pub open spec fn row_with(self, code: Seq<char>) -> Option<ProductRow> {
        prod_row_with(self.rows@, code)
    }

    /// Looks the code up, returning the index of its row.
    fn find_index(&self, code: &str) -> (r: Option<usize>)
        requires
            self.wf(),
        ensures
            match r {
                Some(i) => i < self.rows@.len() && self.row_with(code@) == Some(
                    self.rows@[i as int],
                ) && self.rows@[i as int].id == i + 1 && self.rows@[i as int].fields.saq_code@
                    == code@,
                None => self.row_with(code@) is None,
            },
    {
        let key = code.to_owned();
        let n = self.rows.len();
        let mut i: usize = 0;
        while i < n
            invariant
                self.wf(),
                i <= n,
                n == self.rows@.len(),
                key@ == code@,
                forall|j: int| 0 <= j < i ==> (#[trigger] self.rows@[j]).fields.saq_code@ != code@,
            decreases n - i,
        {
            let row = &self.rows[i];
            if row.fields.saq_code == key {
                proof {
                    lemma_prod_row_with_at(self.rows@, code@, i as int);
                }
                return Some(i);
            }
            i += 1;
        }
        proof {
            lemma_prod_row_with_none(self.rows@, code@);
        }
        None
    }
}

/// One association row, joining a product to a dimension or category row.
#[derive(Debug, Clone, Copy, PartialEq, Eq, Structural)]
pub struct AssocRow {
    /// The product side of the association.
    pub product_id: i64,
    /// The id of the associated row (special feature, grape variety, or
    /// category, depending on the table).
    pub other_id: i64,
    /// For grape varieties, the percentage carried on the association.
    pub percentage: Option<u8>,
    /// Clock value at insertion; never changed afterwards.
    pub created_at: u64,
    /// Clock value of the last write to this row.
    pub updated_at: u64,
}

/// The index of the row joining `pid` to `oid`, if any.
pub open spec fn find_pair(rows: Seq<AssocRow>, pid: i64, oid: i64) -> Option<int>
    decreases rows.len(),
{
    if rows.len() == 0 {
        None
    } else if rows[0].product_id == pid && rows[0].other_id == oid {
        Some(0)
    } else {
        match find_pair(rows.drop_first(), pid, oid) {
            Some(k) => Some(k + 1),
            None => None,
        }
    }
}

proof fn lemma_find_pair_at(rows: Seq<AssocRow>, pid: i64, oid: i64, k: int)
    requires
        0 <= k < rows.len(),
        rows[k].product_id == pid && rows[k].other_id == oid,
        forall|i: int|
            0 <= i < k ==> !((#[trigger] rows[i]).product_id == pid && rows[i].other_id == oid),
    ensures
        find_pair(rows, pid, oid) == Some(k),
    decreases rows.len(),
{
    if k > 0 {
        lemma_find_pair_at(rows.drop_first(), pid, oid, k - 1);
    }
}

proof fn lemma_find_pair_none(rows: Seq<AssocRow>, pid: i64, oid: i64)
    requires
        forall|i: int|
            0 <= i < rows.len() ==> !((#[trigger] rows[i]).product_id == pid && rows[i].other_id
                == oid),
    ensures
        find_pair(rows, pid, oid) is None,
    decreases rows.len(),
{
    if rows.len() > 0 {
        lemma_find_pair_none(rows.drop_first(), pid, oid);
    }
}

proof fn lemma_find_pair_props(rows: Seq<AssocRow>, pid: i64, oid: i64)
    ensures
        match find_pair(rows, pid, oid) {
            Some(k) => 0 <= k < rows.len() && rows[k].product_id == pid && rows[k].other_id == oid,
            None => forall|i: int|
                0 <= i < rows.len() ==> !((#[trigger] rows[i]).product_id == pid
                    && rows[i].other_id == oid),
        },
    decreases rows.len(),
{
    if rows.len() > 0 && !(rows[0].product_id == pid && rows[0].other_id == oid) {
        lemma_find_pair_props(rows.drop_first(), pid, oid);
        match find_pair(rows.drop_first(), pid, oid) {
            Some(k) => {
                assert(rows[k + 1] == rows.drop_first()[k]);
            },
            None => {
                assert(forall|i: int|
                    1 <= i < rows.len() ==> #[trigger] rows[i] == rows.drop_first()[i - 1]);
            },
        }
    }
}

/// No two rows join the same product to the same other id.
pub open spec fn pairs_unique(rows: Seq<AssocRow>) -> bool {
    forall|i: int, j: int|
        #![trigger rows[i], rows[j]]
        0 <= i < j < rows.len() ==> !(rows[i].product_id == rows[j].product_id && rows[i].other_id
            == rows[j].other_id)
}

/// One upsert of the association `(pid, item.0)` carrying `item.1`:
/// an existing row gets the new percentage and timestamp; otherwise a
/// fresh row is appended.
pub open spec fn upsert_one(rows: Seq<AssocRow>, pid: i64, item: (i64, Option<u8>), now: u64) -> Seq<
    AssocRow,
> {
    match find_pair(rows, pid, item.0) {
        Some(k) => rows.update(
            k,
            AssocRow {
                percentage: item.1,
                updated_at: now,
                product_id: rows[k].product_id,
                other_id: rows[k].other_id,
                created_at: rows[k].created_at,
            },
        ),
        None => rows.push(
            AssocRow {
                product_id: pid,
                other_id: item.0,
                percentage: item.1,
                created_at: now,
                updated_at: now,
            },
        ),
    }
}

/// The upserts of all `items` in order, applied to `rows`.
pub open spec fn upsert_all(
    rows: Seq<AssocRow>,
    pid: i64,
    items: Seq<(i64, Option<u8>)>,
    now: u64,
) -> Seq<AssocRow>
    decreases items.len(),
{
    if items.len() == 0 {
        rows
    } else {
        upsert_all(upsert_one(rows, pid, items[0], now), pid, items.drop_first(), now)
    }
}

/// The ids named by a list of `(id, percentage)` items.
pub open spec fn ids_of(items: Seq<(i64, Option<u8>)>) -> Seq<i64> {
    items.map_values(|p: (i64, Option<u8>)| p.0)
}

/// The rows that survive the deletion step: every row of another product,
/// and the rows of `pid` whose other id is in `keep`.
pub open spec fn keep_rows(rows: Seq<AssocRow>, pid: i64, keep: Seq<i64>) -> Seq<AssocRow>
    decreases rows.len(),
{
    if rows.len() == 0 {
        Seq::empty()
    } else {
        let rest = keep_rows(rows.drop_last(), pid, keep);
        if rows.last().product_id != pid || keep.contains(rows.last().other_id) {
            rest.push(rows.last())
        } else {
            rest
        }
    }
}

/// What one reconciliation call does: upsert every target member, then
/// delete every row of this product whose other id is not a target.
pub open spec fn spec_reconcile(
    rows: Seq<AssocRow>,
    pid: i64,
    items: Seq<(i64, Option<u8>)>,
    now: u64,
) -> Seq<AssocRow> {
    keep_rows(upsert_all(rows, pid, items, now), pid, ids_of(items))
}

/// An association table.
#[derive(Debug, Clone)]
pub struct AssocTable {
    /// The rows, in insertion order.
    pub rows: Vec<AssocRow>,
}

impl AssocTable {
    /// No two rows join the same product to the same other id.
    pub open spec fn wf(self) -> bool {
        pairs_unique(self.rows@)
    }

    /// Every timestamp in the table is at most `c`.
    pub open spec fn ts_le(self, c: u64) -> bool {
        forall|i: int|
            0 <= i < self.rows@.len() ==> (#[trigger] self.rows@[i]).created_at <= c
                && self.rows@[i].updated_at <= c
    }

    /// Finds the row joining `pid` to `oid`.
    fn find_pair_index(&self, pid: i64, oid: i64) -> (r: Option<usize>)
        ensures
            match r {
                Some(i) => find_pair(self.rows@, pid, oid) == Some(i as int),
                None => find_pair(self.rows@, pid, oid) is None,
            },
    {
        let n = self.rows.len();
        let mut i: usize = 0;
        while i < n
            invariant
                i <= n,
                n == self.rows@.len(),
                forall|j: int|
                    0 <= j < i ==> !((#[trigger] self.rows@[j]).product_id == pid
                        && self.rows@[j].other_id == oid),
            decreases n - i,
        {
            let row = &self.rows[i];
            if row.product_id == pid && row.other_id == oid {
                proof {
                    lemma_find_pair_at(self.rows@, pid, oid, i as int);
                }
                return Some(i);
            }
            i += 1;
        }
        proof {
            lemma_find_pair_none(self.rows@, pid, oid);
        }
        None
    }
}

/// The ten name-keyed lookup tables of the store, one per attribute the
/// product aggregate references by id.
#[derive(Debug, Clone, Copy, PartialEq, Eq, Structural)]
pub enum DimensionKind {
    /// The `producers` table.
    Producer,
    /// The `promoting_agents` table.
    PromotingAgent,
    /// The `colors` table.
    Color,
    /// The `regions` table.
    Region,
    /// The `countries` table.
    Country,
    /// The `grape_varieties` table.
    GrapeVariety,
    /// The `regulated_designations` table.
    RegulatedDesignation,
    /// The `designations_of_origin` table.
    DesignationOfOrigin,
    /// The `classifications` table.
    Classification,
    /// The `special_features` table.
    SpecialFeature,
}

/// The slot a dimension kind occupies in the client's table list.
pub open spec fn dim_index(k: DimensionKind) -> int {
    match k {
        DimensionKind::Producer => 0,
        DimensionKind::PromotingAgent => 1,
        DimensionKind::Color => 2,
        DimensionKind::Region => 3,
        DimensionKind::Country => 4,
        DimensionKind::GrapeVariety => 5,
        DimensionKind::RegulatedDesignation => 6,
        DimensionKind::DesignationOfOrigin => 7,
        DimensionKind::Classification => 8,
        DimensionKind::SpecialFeature => 9,
    }
}

impl DimensionKind {
    /// The slot this kind occupies in the client's table list.
    pub fn index(&self) -> (r: usize)
        ensures
            r == dim_index(*self),
            r < 10,
    {
        match self {
            DimensionKind::Producer => 0,
            DimensionKind::PromotingAgent => 1,
            DimensionKind::Color => 2,
            DimensionKind::Region => 3,
            DimensionKind::Country => 4,
            DimensionKind::GrapeVariety => 5,
            DimensionKind::RegulatedDesignation => 6,
            DimensionKind::DesignationOfOrigin => 7,
            DimensionKind::Classification => 8,
            DimensionKind::SpecialFeature => 9,
        }
    }
}

/// Wraps all store logic: the tables and the logical clock.
#[derive(Debug, Clone)]
pub struct Client {
    /// The ten lookup tables, indexed by [`dim_index`].
    pub dims: Vec<DimensionTable>,
    /// The category table.
    pub categories: CategoryTable,
    /// The product table.
    pub products: ProductTable,
    /// Associations from products to special features.
    pub product_special_features: AssocTable,
    /// Associations from products to grape varieties, with percentages.
    pub product_grape_varieties: AssocTable,
    /// Associations from products to categories.
    pub product_categories: AssocTable,
    /// The logical clock: the timestamp of the latest write.
    pub clock: u64,
}

impl Client {
    /// The store's structural invariant.
    pub open spec fn wf(self) -> bool {
        &&& self.dims@.len() == 10
        &&& forall|i: int|
            0 <= i < 10 ==> (#[trigger] self.dims@[i]).wf() && self.dims@[i].ts_le(self.clock)
        &&& self.categories.wf() && self.categories.ts_le(self.clock)
        &&& self.products.wf() && self.products.ts_le(self.clock)
        &&& self.product_special_features.wf() && self.product_special_features.ts_le(self.clock)
        &&& self.product_grape_varieties.wf() && self.product_grape_varieties.ts_le(self.clock)
        &&& self.product_categories.wf() && self.product_categories.ts_le(self.clock)
    }

    /// The lookup table of the given kind.
    pub open spec fn dim(self, k: DimensionKind) -> DimensionTable {
        self.dims@[dim_index(k)]
    }

    /// All tables other than the lookup tables read the same in both states.
    pub open spec fn non_dims_unchanged(a: Client, b: Client) -> bool {
        &&& a.categories == b.categories
        &&& a.products == b.products
        &&& a.product_special_features == b.product_special_features
        &&& a.product_grape_varieties == b.product_grape_varieties
        &&& a.product_categories == b.product_categories
    }

    /// Returns a new, empty store.
    pub fn new() -> (c: Client)
        ensures
            c.wf(),
            c.clock == 0,
            forall|i: int| 0 <= i < 10 ==> (#[trigger] c.dims@[i]).rows@.len() == 0,
            c.categories.rows@.len() == 0,
            c.products.rows@.len() == 0,
            c.product_special_features.rows@.len() == 0,
            c.product_grape_varieties.rows@.len() == 0,
            c.product_categories.rows@.len() == 0,
    {
        let mut dims: Vec<DimensionTable> = Vec::new();
        let mut k: usize = 0;
        while k < 10
            invariant
                k <= 10,
                dims@.len() == k,
                forall|i: int| 0 <= i < k ==> (#[trigger] dims@[i]).rows@.len() == 0,
            decreases 10 - k,
        {
            dims.push(DimensionTable { rows: Vec::new() });
            k += 1;
        }
        Client {
            dims,
            categories: CategoryTable { rows: Vec::new() },
            products: ProductTable { rows: Vec::new() },
            product_special_features: AssocTable { rows: Vec::new() },
            product_grape_varieties: AssocTable { rows: Vec::new() },
            product_categories: AssocTable { rows: Vec::new() },
            clock: 0,
        }
    }

    /// Insert-if-absent-by-name into the lookup table of the given kind:
    /// returns the id of the row holding `name`, creating the row when no
    /// row holds it. An existing row is returned untouched — in particular
    /// its `updated_at` is left alone — so the operation is idempotent.
    pub fn upsert_dimension(&mut self, kind: DimensionKind, name: &str) -> (r: Result<
        i64,
        StoreError,
    >)
        requires
            old(self).wf(),
        ensures
            final(self).wf(),
            final(self).dims@.len() == 10,
            Client::non_dims_unchanged(*old(self), *final(self)),
            forall|i: int|
                0 <= i < 10 && i != dim_index(kind) ==> final(self).dims@[i] == old(self).dims@[i],
            match old(self).dim(kind).row_with(name@) {
                Some(row) => r == Ok::<i64, StoreError>(row.id) && *final(self) == *old(self),
                None => {
                    if old(self).clock < u64::MAX && old(self).dim(kind).rows@.len() + 1
                        <= i64::MAX {
                        &&& r matches Ok(id)
                        &&& id == old(self).dim(kind).rows@.len() + 1
                        &&& final(self).clock == old(self).clock + 1
                        &&& final(self).dim(kind).rows@.len() == old(self).dim(kind).rows@.len()
                            + 1
                        &&& forall|i: int|
                            0 <= i < old(self).dim(kind).rows@.len() ==> final(self).dim(kind).rows@[i] == old(self).dim(kind).rows@[i]
                        &&& final(self).dim(kind).rows@.last().name@ == name@
                        &&& final(self).dim(kind).rows@.last().id == id
                        &&& final(self).dim(kind).rows@.last().created_at == final(self).clock
                        &&& final(self).dim(kind).rows@.last().updated_at == final(self).clock
                    } else {
                        r == Err::<i64, StoreError>(StoreError::Full) && *final(self) == *old(self)
                    }
                },
            },
            r matches Ok(id) ==> final(self).dim(kind).row_with(name@) matches Some(row)
                && row.id == id,
            r matches Ok(id) ==> 1 <= id <= final(self).dim(kind).rows@.len() && final(self).dim(kind).rows@[id - 1].name@ == name@,
    {
        let idx = kind.index();
        if let Some(id) = self.dims[idx].find(name) {
            proof {
                lemma_dim_row_with_props(self.dims@[idx as int].rows@, name@);
                let row = self.dims@[idx as int].row_with(name@)->Some_0;
                let i = choose|i: int|
                    0 <= i < self.dims@[idx as int].rows@.len() && self.dims@[idx as int].rows@[i]
                        == row && (#[trigger] self.dims@[idx as int].rows@[i]).name@ == name@;
                assert(self.dims@[idx as int].rows@[i].id == i + 1);
            }
            return Ok(id);
        }
        if self.clock == u64::MAX || self.dims[idx].rows.len() as u64
            >= 0x7fff_ffff_ffff_ffffu64 {
            return Err(StoreError::Full);
        }
        let now = self.clock + 1;
        match self.dims[idx].insert_new(name, now) {
            Ok(id) => {
                self.clock = now;
                Ok(id)
            },
            Err(e) => Err(e),
        }
    }

    /// Insert-or-update of a category by name, with conditional touch.
    ///
    /// A row is created when the name is new. An existing row is rewritten
    /// — URL, parent and `updated_at` — only when the URL or the parent
    /// actually changed; otherwise no write happens at all and `updated_at`
    /// keeps its old value. Returns the row's id either way. A parent id
    /// that names no category row is refused.
    pub fn upsert_category(&mut self, name: &str, url: &str, parent_id: Option<i64>) -> (r: Result<
        i64,
        StoreError,
    >)
        requires
            old(self).wf(),
        ensures
            final(self).wf(),
            final(self).dims@ == old(self).dims@,
            final(self).products == old(self).products,
            final(self).product_special_features == old(self).product_special_features,
            final(self).product_grape_varieties == old(self).product_grape_varieties,
            final(self).product_categories == old(self).product_categories,
            ({
                let cats = old(self).categories;
                let parent_ok = match parent_id {
                    None => true,
                    Some(p) => 1 <= p <= cats.rows@.len(),
                };
                if !parent_ok {
                    r == Err::<i64, StoreError>(StoreError::ForeignKey) && *final(self) == *old(self)
                } else {
                    match cats.row_with(name@) {
                        Some(row) => {
                            if row.url@ == url@ && row.parent_id == parent_id {
                                r == Ok::<i64, StoreError>(row.id) && *final(self) == *old(self)
                            } else if old(self).clock == u64::MAX {
                                r == Err::<i64, StoreError>(StoreError::Full) && *final(self)
                                    == *old(self)
                            } else {
                                &&& r == Ok::<i64, StoreError>(row.id)
                                &&& final(self).clock == old(self).clock + 1
                                &&& final(self).categories.rows@.len() == cats.rows@.len()
                                &&& forall|i: int|
                                    0 <= i < cats.rows@.len() && i != row.id - 1 ==> final(self).categories.rows@[i] == cats.rows@[i]
                                &&& final(self).categories.rows@[row.id - 1].id == row.id
                                &&& final(self).categories.rows@[row.id - 1].name@ == row.name@
                                &&& final(self).categories.rows@[row.id - 1].url@ == url@
                                &&& final(self).categories.rows@[row.id - 1].parent_id == parent_id
                                &&& final(self).categories.rows@[row.id - 1].created_at
                                    == row.created_at
                                &&& final(self).categories.rows@[row.id - 1].updated_at == old(self).clock + 1
                            }
                        },
                        None => {
                            if old(self).clock < u64::MAX && cats.rows@.len() + 1 <= i64::MAX {
                                &&& r matches Ok(id)
                                &&& id == cats.rows@.len() + 1
                                &&& final(self).clock == old(self).clock + 1
                                &&& final(self).categories.rows@.len() == cats.rows@.len() + 1
                                &&& forall|i: int|
                                    0 <= i < cats.rows@.len() ==> final(self).categories.rows@[i]
                                        == cats.rows@[i]
                                &&& final(self).categories.rows@.last().id == id
                                &&& final(self).categories.rows@.last().name@ == name@
                                &&& final(self).categories.rows@.last().url@ == url@
                                &&& final(self).categories.rows@.last().parent_id == parent_id
                                &&& final(self).categories.rows@.last().created_at == old(self).clock + 1
                                &&& final(self).categories.rows@.last().updated_at == old(self).clock + 1
                            } else {
                                r == Err::<i64, StoreError>(StoreError::Full) && *final(self)
                                    == *old(self)
                            }
                        },
                    }
                }
            }),
            r matches Ok(id) ==> final(self).categories.row_with(name@) matches Some(row)
                && row.id == id,
            r matches Ok(id) ==> 1 <= id <= final(self).categories.rows@.len() && final(self).categories.rows@[id - 1].name@ == name@ && final(self).categories.rows@[id - 1].url@
                == url@ && final(self).categories.rows@[id - 1].parent_id == parent_id,
            final(self).categories.rows@.len() >= old(self).categories.rows@.len(),
            forall|i: int|
                0 <= i < old(self).categories.rows@.len() ==> (
                #[trigger] final(self).categories.rows@[i]).name@ == old(
                    self,
                ).categories.rows@[i].name@,
    {
        match parent_id {
            Some(p) => {
                if !(1 <= p && p as u64 <= self.categories.rows.len() as u64) {
                    return Err(StoreError::ForeignKey);
                }
            },
            None => {},
        }
        match self.categories.find_index(name) {
            Some(i) => {
                let same = {
                    let row = &self.categories.rows[i];
                    let urls_equal = row.url == url.to_owned();
                    let parents_equal = match (row.parent_id, parent_id) {
                        (None, None) => true,
                        (Some(a), Some(b)) => a == b,
                        _ => false,
                    };
                    urls_equal && parents_equal
                };
                let id = self.categories.rows[i].id;
                if same {
                    return Ok(id);
                }
                if self.clock == u64::MAX {
                    return Err(StoreError::Full);
                }
                let now = self.clock + 1;
                let ghost before = self.categories.rows@;
                self.categories.rows[i].url = url.to_owned();
                self.categories.rows[i].parent_id = parent_id;
                self.categories.rows[i].updated_at = now;
                self.clock = now;
                proof {
                    lemma_cat_row_with_at(self.categories.rows@, name@, i as int);
                }
                Ok(id)
            },
            None => {
                if self.clock == u64::MAX || self.categories.rows.len() as u64
                    >= 0x7fff_ffff_ffff_ffffu64 {
                    return Err(StoreError::Full);
                }
                proof {
                    lemma_cat_row_with_props(self.categories.rows@, name@);
                }
                let now = self.clock + 1;
                let n = self.categories.rows.len();
                let id = (n as i64) + 1;
                self.categories.rows.push(
                    CategoryRow {
                        id,
                        name: name.to_owned(),
                        url: url.to_owned(),
                        parent_id,
                        created_at: now,
                        updated_at: now,
                    },
                );
                self.clock = now;
                proof {
                    lemma_cat_row_with_at(self.categories.rows@, name@, n as int);
                }
                Ok(id)
            },
        }
    }
}

proof fn lemma_upsert_all_snoc(
    rows: Seq<AssocRow>,
    pid: i64,
    items: Seq<(i64, Option<u8>)>,
    t: int,
    now: u64,
)
    requires
        0 <= t < items.len(),
    ensures
        upsert_all(rows, pid, items.take(t + 1), now) == upsert_one(
            upsert_all(rows, pid, items.take(t), now),
            pid,
            items[t],
            now,
        ),
    decreases t,
{
    if t == 0 {
        assert(items.take(0) =~= Seq::<(i64, Option<u8>)>::empty());
        assert(items.take(1).drop_first() =~= Seq::<(i64, Option<u8>)>::empty());
        assert(items.take(1)[0] == items[0]);
        assert(upsert_all(rows, pid, items.take(0), now) == rows);
        let rows1 = upsert_one(rows, pid, items[0], now);
        assert(upsert_all(rows, pid, items.take(1), now) == upsert_all(
            rows1,
            pid,
            items.take(1).drop_first(),
            now,
        ));
        assert(upsert_all(rows1, pid, items.take(1).drop_first(), now) == rows1);
    } else {
        let rows1 = upsert_one(rows, pid, items[0], now);
        lemma_upsert_all_snoc(rows1, pid, items.drop_first(), t - 1, now);
        assert(items.take(t + 1)[0] == items[0]);
        assert(items.take(t)[0] == items[0]);
        assert(items.take(t + 1).drop_first() =~= items.drop_first().take(t));
        assert(items.take(t).drop_first() =~= items.drop_first().take(t - 1));
        assert(items.drop_first()[t - 1] == items[t]);
        assert(upsert_all(rows, pid, items.take(t + 1), now) == upsert_all(
            rows1,
            pid,
            items.drop_first().take(t),
            now,
        ));
        assert(upsert_all(rows, pid, items.take(t), now) == upsert_all(
            rows1,
            pid,
            items.drop_first().take(t - 1),
            now,
        ));
    }
}

proof fn lemma_keep_rows_props(rows: Seq<AssocRow>, pid: i64, keep: Seq<i64>)
    ensures
        forall|i: int|
            0 <= i < keep_rows(rows, pid, keep).len() ==> rows.contains(
                #[trigger] keep_rows(rows, pid, keep)[i],
            ),
        pairs_unique(rows) ==> pairs_unique(keep_rows(rows, pid, keep)),
    decreases rows.len(),
{
    if rows.len() > 0 {
        lemma_keep_rows_props(rows.drop_last(), pid, keep);
        let rest = keep_rows(rows.drop_last(), pid, keep);
        let out = keep_rows(rows, pid, keep);
        assert(forall|i: int|
            0 <= i < rows.drop_last().len() ==> rows.drop_last()[i] == #[trigger] rows[i]);
        assert(forall|i: int|
            0 <= i < rest.len() ==> rows.contains(#[trigger] rest[i])) by {
            assert(forall|e: AssocRow| rows.drop_last().contains(e) ==> #[trigger] rows.contains(
                e,
            )) by {
                assert(forall|i: int|
                    0 <= i < rows.drop_last().len() ==> rows.drop_last()[i] == #[trigger] rows[i]);
            }
        }
        if pairs_unique(rows) {
            assert(pairs_unique(rows.drop_last()));
            if rows.last().product_id != pid || keep.contains(rows.last().other_id) {
                assert(pairs_unique(out)) by {
                    assert(forall|i: int| 0 <= i < out.len() - 1 ==> out[i] == #[trigger] rest[i]);
                    assert(out.last() == rows.last());
                    assert(forall|i: int|
                        0 <= i < rest.len() ==> !((#[trigger] rest[i]).product_id
                            == rows.last().product_id && rest[i].other_id
                            == rows.last().other_id)) by {
                        assert(forall|i: int|
                            0 <= i < rest.len() ==> rows.drop_last().contains(#[trigger] rest[i]));
                        assert(forall|k: int|
                            0 <= k < rows.len() - 1 ==> !((#[trigger] rows[k]).product_id
                                == rows.last().product_id && rows[k].other_id
                                == rows.last().other_id));
                    }
                }
            }
        }
    }
}

proof fn lemma_upsert_all_ts(
    rows: Seq<AssocRow>,
    pid: i64,
    items: Seq<(i64, Option<u8>)>,
    now: u64,
    c: u64,
)
    requires
        now <= c,
        forall|i: int|
            0 <= i < rows.len() ==> (#[trigger] rows[i]).created_at <= c && rows[i].updated_at
                <= c,
    ensures
        forall|i: int|
            0 <= i < upsert_all(rows, pid, items, now).len() ==> (#[trigger] upsert_all(
                rows,
                pid,
                items,
                now,
            )[i]).created_at <= c && upsert_all(rows, pid, items, now)[i].updated_at <= c,
    decreases items.len(),
{
    if items.len() > 0 {
        let rows1 = upsert_one(rows, pid, items[0], now);
        assert(forall|i: int|
            0 <= i < rows1.len() ==> (#[trigger] rows1[i]).created_at <= c && rows1[i].updated_at
                <= c) by {
            lemma_find_pair_props(rows, pid, items[0].0);
        }
        lemma_upsert_all_ts(rows1, pid, items.drop_first(), now, c);
    }
}

proof fn lemma_keep_rows_ts(rows: Seq<AssocRow>, pid: i64, keep: Seq<i64>, c: u64)
    requires
        forall|i: int|
            0 <= i < rows.len() ==> (#[trigger] rows[i]).created_at <= c && rows[i].updated_at
                <= c,
    ensures
        forall|i: int|
            0 <= i < keep_rows(rows, pid, keep).len() ==> (#[trigger] keep_rows(
                rows,
                pid,
                keep,
            )[i]).created_at <= c && keep_rows(rows, pid, keep)[i].updated_at <= c,
    decreases rows.len(),
{
    if rows.len() > 0 {
        assert(forall|i: int|
            0 <= i < rows.drop_last().len() ==> (#[trigger] rows.drop_last()[i]).created_at <= c
                && rows.drop_last()[i].updated_at <= c);
        lemma_keep_rows_ts(rows.drop_last(), pid, keep, c);
    }
}

/// Whether `x` is among the first `ids` of a list.
fn ids_contains(ids: &Vec<i64>, x: i64) -> (r: bool)
    ensures
        r == ids@.contains(x),
{
    let n = ids.len();
    let mut i: usize = 0;
    while i < n
        invariant
            i <= n,
            n == ids@.len(),
            forall|j: int| 0 <= j < i ==> ids@[j] != x,
        decreases n - i,
    {
        if ids[i] == x {
            assert(ids@[i as int] == x);
            return true;
        }
        i += 1;
    }
    false
}

impl AssocTable {
    /// Makes the association rows for `product_id` exactly the target
    /// list: every target member is upserted — refreshing `updated_at`
    /// and the percentage, keeping `created_at` — and then every row of
    /// this product whose other id is not a target is deleted.
    pub fn reconcile(&mut self, product_id: i64, items: &Vec<(i64, Option<u8>)>, now: u64)
        requires
            old(self).wf(),
        ensures
            final(self).wf(),
            final(self).rows@ == spec_reconcile(old(self).rows@, product_id, items@, now),
    {
        let ghost rows0 = self.rows@;
        let m = items.len();
        let mut t: usize = 0;
        while t < m
            invariant
                t <= m,
                m == items@.len(),
                self.wf(),
                self.rows@ == upsert_all(rows0, product_id, items@.take(t as int), now),
            decreases m - t,
        {
            proof {
                lemma_upsert_all_snoc(rows0, product_id, items@, t as int, now);
            }
            let ghost prev = self.rows@;
            let (oid, pct) = items[t];
            proof {
                assert(items@[t as int] == (oid, pct));
            }
            match self.find_pair_index(product_id, oid) {
                Some(i) => {
                    proof {
                        lemma_find_pair_props(prev, product_id, oid);
                    }
                    self.rows[i].percentage = pct;
                    self.rows[i].updated_at = now;
                    proof {
                        assert(self.rows@ =~= upsert_one(prev, product_id, (oid, pct), now));
                        assert(pairs_unique(self.rows@)) by {
                            assert(forall|k: int|
                                0 <= k < prev.len() && k != i ==> self.rows@[k] == #[trigger] prev[k]);
                            assert(self.rows@[i as int].product_id == prev[i as int].product_id
                                && self.rows@[i as int].other_id == prev[i as int].other_id);
                        }
                    }
                },
                None => {
                    proof {
                        lemma_find_pair_props(prev, product_id, oid);
                    }
                    self.rows.push(
                        AssocRow {
                            product_id,
                            other_id: oid,
                            percentage: pct,
                            created_at: now,
                            updated_at: now,
                        },
                    );
                    proof {
                        assert(self.rows@ =~= upsert_one(prev, product_id, (oid, pct), now));
                        assert(pairs_unique(self.rows@)) by {
                            assert(forall|k: int|
                                0 <= k < prev.len() ==> self.rows@[k] == #[trigger] prev[k]);
                            assert(forall|k: int|
                                0 <= k < prev.len() ==> !((#[trigger] prev[k]).product_id
                                    == product_id && prev[k].other_id == oid));
                        }
                    }
                },
            }
            t += 1;
        }
        proof {
            assert(items@.take(m as int) =~= items@);
        }
        // the ids named by the target list
        let mut ids: Vec<i64> = Vec::new();
        let mut j: usize = 0;
        while j < m
            invariant
                j <= m,
                m == items@.len(),
                ids@ == ids_of(items@.take(j as int)),
            decreases m - j,
        {
            let (oid, _) = items[j];
            ids.push(oid);
            proof {
                assert(ids@ =~= ids_of(items@.take(j + 1)));
            }
            j += 1;
        }
        proof {
            assert(ids@ =~= ids_of(items@));
        }
        // delete the rows of this product that are not targets
        let ghost rows1 = self.rows@;
        let mut kept: Vec<AssocRow> = Vec::new();
        let n = self.rows.len();
        let mut u: usize = 0;
        while u < n
            invariant
                u <= n,
                n == self.rows@.len(),
                rows1 == self.rows@,
                ids@ == ids_of(items@),
                kept@ == keep_rows(rows1.take(u as int), product_id, ids@),
            decreases n - u,
        {
            let row = self.rows[u];
            let keep = row.product_id != product_id || ids_contains(&ids, row.other_id);
            if keep {
                kept.push(row);
            }
            proof {
                assert(rows1.take(u + 1).drop_last() =~= rows1.take(u as int));
                assert(rows1.take(u + 1).last() == rows1[u as int]);
            }
            u += 1;
        }
        proof {
            assert(rows1.take(n as int) =~= rows1);
            lemma_keep_rows_props(rows1, product_id, ids@);
        }
        self.rows = kept;
    }
}

/// Whether an optional id reference points into a table of `len` rows.
pub open spec fn opt_id_ok(x: Option<i64>, len: int) -> bool {
    match x {
        None => true,
        Some(p) => 1 <= p <= len,
    }
}

/// The admitted strings of the availability column.
pub open spec fn availability_ok(s: Seq<char>) -> bool {
    ||| s == "back_order"@
    ||| s == "discontinued"@
    ||| s == "in_stock"@
    ||| s == "in_store_only"@
    ||| s == "limited_availability"@
    ||| s == "online_only"@
    ||| s == "out_of_stock"@
    ||| s == "pre_order"@
    ||| s == "pre_sale"@
    ||| s == "sold_out"@
}

/// The admitted strings of the item-condition column.
pub open spec fn condition_ok(s: Seq<char>) -> bool {
    ||| s == "damaged"@
    ||| s == "new"@
    ||| s == "refurbished"@
    ||| s == "used"@
}

/// The admitted strings of the product-of-Québec column.
pub open spec fn quebec_str_ok(s: Seq<char>) -> bool {
    ||| s == "bottled_in_quebec"@
    ||| s == "made_in_quebec"@
    ||| s == "origine_quebec"@
}

/// The admitted strings of the sugar-qualifier column.
pub open spec fn sugar_eq_ok(s: Seq<char>) -> bool {
    ||| s == ">"@
    ||| s == "<"@
    ||| s == "="@
}

/// The membership checks the product table runs on its enumerated columns.
pub open spec fn checks_ok(f: ProductUpsertFields) -> bool {
    &&& availability_ok(f.availability@)
    &&& condition_ok(f.item_condition@)
    &&& match f.product_of_quebec {
        None => true,
        Some(s) => quebec_str_ok(s@),
    }
    &&& match f.sugar_content_equality {
        None => true,
        Some(s) => sugar_eq_ok(s@),
    }
}

/// Whether the two strings read the same.
fn str_eq(a: &str, b: &str) -> (r: bool)
    ensures
        r == (a@ == b@),
{
    let x = a.to_owned();
    let y = b.to_owned();
    x == y
}

/// Whether `s` is an admitted availability string.
fn availability_valid(s: &str) -> (r: bool)
    ensures
        r == availability_ok(s@),
{
    str_eq(s, "back_order") || str_eq(s, "discontinued") || str_eq(s, "in_stock") || str_eq(
        s,
        "in_store_only",
    ) || str_eq(s, "limited_availability") || str_eq(s, "online_only") || str_eq(s, "out_of_stock")
        || str_eq(s, "pre_order") || str_eq(s, "pre_sale") || str_eq(s, "sold_out")
}

/// Whether `s` is an admitted item-condition string.
fn condition_valid(s: &str) -> (r: bool)
    ensures
        r == condition_ok(s@),
{
    str_eq(s, "damaged") || str_eq(s, "new") || str_eq(s, "refurbished") || str_eq(s, "used")
}

/// Whether `s` is an admitted product-of-Québec string.
fn quebec_str_valid(s: &str) -> (r: bool)
    ensures
        r == quebec_str_ok(s@),
{
    str_eq(s, "bottled_in_quebec") || str_eq(s, "made_in_quebec") || str_eq(s, "origine_quebec")
}

/// Whether `s` is an admitted sugar-qualifier string.
fn sugar_eq_valid(s: &str) -> (r: bool)
    ensures
        r == sugar_eq_ok(s@),
{
    str_eq(s, ">") || str_eq(s, "<") || str_eq(s, "=")
}

/// Whether an optional id points into a table of `len` rows.
fn opt_id_valid(x: Option<i64>, len: usize) -> (r: bool)
    ensures
        r == opt_id_ok(x, len as int),
{
    match x {
        None => true,
        Some(p) => 1 <= p && p as u64 <= len as u64,
    }
}

/// Whether every id of the list points into a table of `len` rows.
fn ids_in_range(ids: &Vec<i64>, len: usize) -> (r: bool)
    ensures
        r == (forall|i: int| 0 <= i < ids@.len() ==> 1 <= #[trigger] ids@[i] <= len as int),
{
    let n = ids.len();
    let mut i: usize = 0;
    while i < n
        invariant
            i <= n,
            n == ids@.len(),
            forall|j: int| 0 <= j < i ==> 1 <= #[trigger] ids@[j] <= len as int,
        decreases n - i,
    {
        let x = ids[i];
        if !(1 <= x && x as u64 <= len as u64) {
            assert(!(1 <= ids@[i as int] <= len as int));
            return false;
        }
        i += 1;
    }
    true
}

/// `(id, None)` pairs for a plain id list.
pub open spec fn with_no_pct(ids: Seq<i64>) -> Seq<(i64, Option<u8>)> {
    ids.map_values(|x: i64| (x, None::<u8>))
}

impl Client {
    /// The foreign keys a product row carries, checked against the store.
    pub open spec fn product_fk_ok(self, f: ProductUpsertFields) -> bool {
        &&& opt_id_ok(f.producer_id, self.dim(DimensionKind::Producer).rows@.len() as int)
        &&& opt_id_ok(
            f.promoting_agent_id,
            self.dim(DimensionKind::PromotingAgent).rows@.len() as int,
        )
        &&& opt_id_ok(f.color_id, self.dim(DimensionKind::Color).rows@.len() as int)
        &&& opt_id_ok(f.region_id, self.dim(DimensionKind::Region).rows@.len() as int)
        &&& opt_id_ok(f.country_id, self.dim(DimensionKind::Country).rows@.len() as int)
        &&& opt_id_ok(
            f.regulated_designation_id,
            self.dim(DimensionKind::RegulatedDesignation).rows@.len() as int,
        )
        &&& opt_id_ok(
            f.designation_of_origin_id,
            self.dim(DimensionKind::DesignationOfOrigin).rows@.len() as int,
        )
        &&& opt_id_ok(
            f.classification_id,
            self.dim(DimensionKind::Classification).rows@.len() as int,
        )
    }

    /// Keyed upsert of the product aggregate row.
    ///
    /// A row is created when the code is new; an existing row has every
    /// field but the code and `created_at` rewritten, and `updated_at` is
    /// refreshed even when nothing else changed. Returns the row's id,
    /// stable across repeated upserts of the same code. Enumerated columns
    /// must hold admitted strings and id references must point at existing
    /// rows.
    pub fn upsert_product(&mut self, fields: ProductUpsertFields) -> (r: Result<i64, StoreError>)
        requires
            old(self).wf(),
        ensures
            final(self).wf(),
            final(self).dims@ == old(self).dims@,
            final(self).categories == old(self).categories,
            final(self).product_special_features == old(self).product_special_features,
            final(self).product_grape_varieties == old(self).product_grape_varieties,
            final(self).product_categories == old(self).product_categories,
            ({
                let prods = old(self).products;
                if !checks_ok(fields) {
                    r == Err::<i64, StoreError>(StoreError::Check) && *final(self) == *old(self)
                } else if !old(self).product_fk_ok(fields) {
                    r == Err::<i64, StoreError>(StoreError::ForeignKey) && *final(self) == *old(self)
                } else {
                    match prods.row_with(fields.saq_code@) {
                        Some(row) => {
                            if old(self).clock == u64::MAX {
                                r == Err::<i64, StoreError>(StoreError::Full) && *final(self)
                                    == *old(self)
                            } else {
                                &&& r == Ok::<i64, StoreError>(row.id)
                                &&& final(self).clock == old(self).clock + 1
                                &&& final(self).products.rows@.len() == prods.rows@.len()
                                &&& forall|i: int|
                                    0 <= i < prods.rows@.len() && i != row.id - 1 ==> final(self).products.rows@[i] == prods.rows@[i]
                                &&& final(self).products.rows@[row.id - 1].id == row.id
                                &&& final(self).products.rows@[row.id - 1].fields == fields
                                &&& final(self).products.rows@[row.id - 1].created_at
                                    == row.created_at
                                &&& final(self).products.rows@[row.id - 1].updated_at == old(self).clock + 1
                            }
                        },
                        None => {
                            if old(self).clock < u64::MAX && prods.rows@.len() + 1 <= i64::MAX {
                                &&& r matches Ok(id)
                                &&& id == prods.rows@.len() + 1
                                &&& final(self).clock == old(self).clock + 1
                                &&& final(self).products.rows@.len() == prods.rows@.len() + 1
                                &&& forall|i: int|
                                    0 <= i < prods.rows@.len() ==> final(self).products.rows@[i]
                                        == prods.rows@[i]
                                &&& final(self).products.rows@.last().id == id
                                &&& final(self).products.rows@.last().fields == fields
                                &&& final(self).products.rows@.last().created_at == old(self).clock
                                    + 1
                                &&& final(self).products.rows@.last().updated_at == old(self).clock
                                    + 1
                            } else {
                                r == Err::<i64, StoreError>(StoreError::Full) && *final(self)
                                    == *old(self)
                            }
                        },
                    }
                }
            }),
            r matches Ok(id) ==> final(self).products.row_with(fields.saq_code@) matches Some(row)
                && row.id == id,
            r matches Ok(id) ==> 1 <= id <= final(self).products.rows@.len() && final(self).products.rows@[id - 1].fields == fields,
            r matches Ok(id) ==> final(self).products.row_with(fields.saq_code@) == Some(
                final(self).products.rows@[id - 1],
            ),
            final(self).products.rows@.len() >= old(self).products.rows@.len(),
            forall|i: int|
                0 <= i < old(self).products.rows@.len() && (
                #[trigger] old(self).products.rows@[i]).fields.saq_code@ != fields.saq_code@
                    ==> final(self).products.rows@[i] == old(self).products.rows@[i],
    {
        let checks = availability_valid(fields.availability.as_str()) && condition_valid(
            fields.item_condition.as_str(),
        ) && (match &fields.product_of_quebec {
            None => true,
            Some(s) => quebec_str_valid(s.as_str()),
        }) && (match &fields.sugar_content_equality {
            None => true,
            Some(s) => sugar_eq_valid(s.as_str()),
        });
        if !checks {
            return Err(StoreError::Check);
        }
        let fk = opt_id_valid(fields.producer_id, self.dims[0].rows.len()) && opt_id_valid(
            fields.promoting_agent_id,
            self.dims[1].rows.len(),
        ) && opt_id_valid(fields.color_id, self.dims[2].rows.len()) && opt_id_valid(
            fields.region_id,
            self.dims[3].rows.len(),
        ) && opt_id_valid(fields.country_id, self.dims[4].rows.len()) && opt_id_valid(
            fields.regulated_designation_id,
            self.dims[6].rows.len(),
        ) && opt_id_valid(fields.designation_of_origin_id, self.dims[7].rows.len())
            && opt_id_valid(fields.classification_id, self.dims[8].rows.len());
        if !fk {
            return Err(StoreError::ForeignKey);
        }
        match self.products.find_index(fields.saq_code.as_str()) {
            Some(i) => {
                if self.clock == u64::MAX {
                    return Err(StoreError::Full);
                }
                let now = self.clock + 1;
                let id = self.products.rows[i].id;
                self.products.rows[i].fields = fields;
                self.products.rows[i].updated_at = now;
                self.clock = now;
                proof {
                    lemma_prod_row_with_at(
                        self.products.rows@,
                        self.products.rows@[i as int].fields.saq_code@,
                        i as int,
                    );
                }
                Ok(id)
            },
            None => {
                if self.clock == u64::MAX || self.products.rows.len() as u64
                    >= 0x7fff_ffff_ffff_ffffu64 {
                    return Err(StoreError::Full);
                }
                proof {
                    lemma_prod_row_with_props(self.products.rows@, fields.saq_code@);
                }
                let now = self.clock + 1;
                let n = self.products.rows.len();
                let id = (n as i64) + 1;
                let ghost code = fields.saq_code@;
                self.products.rows.push(ProductRow { id, fields, created_at: now, updated_at: now });
                self.clock = now;
                proof {
                    lemma_prod_row_with_at(self.products.rows@, code, n as int);
                }
                Ok(id)
            },
        }
    }

    /// Makes the special-feature associations of `product_id` exactly the
    /// given id list, inside one all-or-nothing operation: on any error
    /// the store is untouched. `updated_at` is refreshed on every listed
    /// association, existing rows keep their `created_at`, and every other
    /// special-feature association of this product is deleted.
    pub fn ensure_product_special_features(
        &mut self,
        product_id: i64,
        special_feature_ids: Vec<i64>,
    ) -> (r: Result<(), StoreError>)
        requires
            old(self).wf(),
        ensures
            final(self).wf(),
            final(self).dims@ == old(self).dims@,
            final(self).categories == old(self).categories,
            final(self).products == old(self).products,
            final(self).product_grape_varieties == old(self).product_grape_varieties,
            final(self).product_categories == old(self).product_categories,
            ({
                let fk_ok = 1 <= product_id <= old(self).products.rows@.len() && (forall|i: int|
                    0 <= i < special_feature_ids@.len() ==> 1 <= #[trigger] special_feature_ids@[i]
                        <= old(self).dim(DimensionKind::SpecialFeature).rows@.len());
                if !fk_ok {
                    r == Err::<(), StoreError>(StoreError::ForeignKey) && *final(self) == *old(self)
                } else if old(self).clock == u64::MAX {
                    r == Err::<(), StoreError>(StoreError::Full) && *final(self) == *old(self)
                } else {
                    &&& r == Ok::<(), StoreError>(())
                    &&& final(self).clock == old(self).clock + 1
                    &&& final(self).product_special_features.rows@ == spec_reconcile(
                        old(self).product_special_features.rows@,
                        product_id,
                        with_no_pct(special_feature_ids@),
                        (old(self).clock + 1) as u64,
                    )
                }
            }),
    {
        if !(1 <= product_id && product_id as u64 <= self.products.rows.len() as u64) {
            return Err(StoreError::ForeignKey);
        }
        let sf_len = self.dims[9].rows.len();
        if !ids_in_range(&special_feature_ids, sf_len) {
            return Err(StoreError::ForeignKey);
        }
        if self.clock == u64::MAX {
            return Err(StoreError::Full);
        }
        let now = self.clock + 1;
        let m = special_feature_ids.len();
        let mut items: Vec<(i64, Option<u8>)> = Vec::new();
        let mut j: usize = 0;
        while j < m
            invariant
                j <= m,
                m == special_feature_ids@.len(),
                items@ == with_no_pct(special_feature_ids@.take(j as int)),
            decreases m - j,
        {
            let x = special_feature_ids[j];
            items.push((x, None));
            proof {
                assert(items@ =~= with_no_pct(special_feature_ids@.take(j + 1)));
            }
            j += 1;
        }
        proof {
            assert(special_feature_ids@.take(m as int) =~= special_feature_ids@);
        }
        self.product_special_features.reconcile(product_id, &items, now);
        self.clock = now;
        proof {
            lemma_upsert_all_ts(
                old(self).product_special_features.rows@,
                product_id,
                items@,
                now,
                now,
            );
            lemma_keep_rows_ts(
                upsert_all(old(self).product_special_features.rows@, product_id, items@, now),
                product_id,
                ids_of(items@),
                now,
            );
        }
        Ok(())
    }

    /// Makes the grape-variety associations of `product_id` exactly the
    /// given `(id, percentage)` list: `updated_at` and the percentage are
    /// refreshed on every listed association, existing rows keep their
    /// `created_at`, and every other grape-variety association of this
    /// product is deleted. On any error the store is untouched.
    pub fn ensure_product_grape_varieties(
        &mut self,
        product_id: i64,
        grape_variety_ids_and_percentages: Vec<(i64, Option<u8>)>,
    ) -> (r: Result<(), StoreError>)
        requires
            old(self).wf(),
        ensures
            final(self).wf(),
            final(self).dims@ == old(self).dims@,
            final(self).categories == old(self).categories,
            final(self).products == old(self).products,
            final(self).product_special_features == old(self).product_special_features,
            final(self).product_categories == old(self).product_categories,
            ({
                let items = grape_variety_ids_and_percentages@;
                let fk_ok = 1 <= product_id <= old(self).products.rows@.len() && (forall|i: int|
                    0 <= i < items.len() ==> 1 <= (#[trigger] items[i]).0 <= old(self).dim(DimensionKind::GrapeVariety).rows@.len());
                if !fk_ok {
                    r == Err::<(), StoreError>(StoreError::ForeignKey) && *final(self) == *old(self)
                } else if old(self).clock == u64::MAX {
                    r == Err::<(), StoreError>(StoreError::Full) && *final(self) == *old(self)
                } else {
                    &&& r == Ok::<(), StoreError>(())
                    &&& final(self).clock == old(self).clock + 1
                    &&& final(self).product_grape_varieties.rows@ == spec_reconcile(
                        old(self).product_grape_varieties.rows@,
                        product_id,
                        items,
                        (old(self).clock + 1) as u64,
                    )
                }
            }),
    {
        if !(1 <= product_id && product_id as u64 <= self.products.rows.len() as u64) {
            return Err(StoreError::ForeignKey);
        }
        let gv_len = self.dims[5].rows.len();
        let m = grape_variety_ids_and_percentages.len();
        let mut j: usize = 0;
        while j < m
            invariant
                *self == *old(self),
                self.wf(),
                j <= m,
                m == grape_variety_ids_and_percentages@.len(),
                gv_len == self.dim(DimensionKind::GrapeVariety).rows@.len(),
                forall|i: int|
                    0 <= i < j ==> 1 <= (#[trigger] grape_variety_ids_and_percentages@[i]).0
                        <= gv_len as int,
            decreases m - j,
        {
            let (x, _) = grape_variety_ids_and_percentages[j];
            if !(1 <= x && x as u64 <= gv_len as u64) {
                proof {
                    assert(grape_variety_ids_and_percentages@[j as int].0 == x);
                }
                return Err(StoreError::ForeignKey);
            }
            j += 1;
        }
        if self.clock == u64::MAX {
            return Err(StoreError::Full);
        }
        let now = self.clock + 1;
        self.product_grape_varieties.reconcile(product_id, &grape_variety_ids_and_percentages, now);
        self.clock = now;
        proof {
            lemma_upsert_all_ts(
                old(self).product_grape_varieties.rows@,
                product_id,
                grape_variety_ids_and_percentages@,
                now,
                now,
            );
            lemma_keep_rows_ts(
                upsert_all(
                    old(self).product_grape_varieties.rows@,
                    product_id,
                    grape_variety_ids_and_percentages@,
                    now,
                ),
                product_id,
                ids_of(grape_variety_ids_and_percentages@),
                now,
            );
        }
        Ok(())
    }

    /// Makes the category associations of `product_id` exactly the given
    /// id list: `updated_at` is refreshed on every listed association,
    /// existing rows keep their `created_at`, and every other category
    /// association of this product is deleted. On any error the store is
    /// untouched.
    pub fn ensure_product_categories(&mut self, product_id: i64, category_ids: Vec<i64>) -> (r:
        Result<(), StoreError>)
        requires
            old(self).wf(),
        ensures
            final(self).wf(),
            final(self).dims@ == old(self).dims@,
            final(self).categories == old(self).categories,
            final(self).products == old(self).products,
            final(self).product_special_features == old(self).product_special_features,
            final(self).product_grape_varieties == old(self).product_grape_varieties,
            ({
                let fk_ok = 1 <= product_id <= old(self).products.rows@.len() && (forall|i: int|
                    0 <= i < category_ids@.len() ==> 1 <= #[trigger] category_ids@[i] <= old(self).categories.rows@.len());
                if !fk_ok {
                    r == Err::<(), StoreError>(StoreError::ForeignKey) && *final(self) == *old(self)
                } else if old(self).clock == u64::MAX {
                    r == Err::<(), StoreError>(StoreError::Full) && *final(self) == *old(self)
                } else {
                    &&& r == Ok::<(), StoreError>(())
                    &&& final(self).clock == old(self).clock + 1
                    &&& final(self).product_categories.rows@ == spec_reconcile(
                        old(self).product_categories.rows@,
                        product_id,
                        with_no_pct(category_ids@),
                        (old(self).clock + 1) as u64,
                    )
                }
            }),
    {
        if !(1 <= product_id && product_id as u64 <= self.products.rows.len() as u64) {
            return Err(StoreError::ForeignKey);
        }
        let cat_len = self.categories.rows.len();
        if !ids_in_range(&category_ids, cat_len) {
            return Err(StoreError::ForeignKey);
        }
        if self.clock == u64::MAX {
            return Err(StoreError::Full);
        }
        let now = self.clock + 1;
        let m = category_ids.len();
        let mut items: Vec<(i64, Option<u8>)> = Vec::new();
        let mut j: usize = 0;
        while j < m
            invariant
                j <= m,
                m == category_ids@.len(),
                items@ == with_no_pct(category_ids@.take(j as int)),
            decreases m - j,
        {
            let x = category_ids[j];
            items.push((x, None));
            proof {
                assert(items@ =~= with_no_pct(category_ids@.take(j + 1)));
            }
            j += 1;
        }
        proof {
            assert(category_ids@.take(m as int) =~= category_ids@);
        }
        self.product_categories.reconcile(product_id, &items, now);
        self.clock = now;
        proof {
            lemma_upsert_all_ts(old(self).product_categories.rows@, product_id, items@, now, now);
            lemma_keep_rows_ts(
                upsert_all(old(self).product_categories.rows@, product_id, items@, now),
                product_id,
                ids_of(items@),
                now,
            );
        }
        Ok(())
    }
}

/// Whether some row joins `pid` to `x`.
pub open spec fn has_assoc(rows: Seq<AssocRow>, pid: i64, x: i64) -> bool {
    exists|i: int|
        0 <= i < rows.len() && (#[trigger] rows[i]).product_id == pid && rows[i].other_id == x
}

/// Whether some row joins `pid` to `x` and was created at `c`.
pub open spec fn has_assoc_created(rows: Seq<AssocRow>, pid: i64, x: i64, c: u64) -> bool {
    exists|i: int|
        0 <= i < rows.len() && (#[trigger] rows[i]).product_id == pid && rows[i].other_id == x
            && rows[i].created_at == c
}

proof fn lemma_upsert_one_assoc(rows: Seq<AssocRow>, pid: i64, item: (i64, Option<u8>), now: u64)
    ensures
        forall|x: i64|
            has_assoc(#[trigger] upsert_one(rows, pid, item, now), pid, x) <==> (has_assoc(
                rows,
                pid,
                x,
            ) || x == item.0),
        forall|x: i64, c: u64|
            has_assoc_created(rows, pid, x, c) ==> has_assoc_created(
                #[trigger] upsert_one(rows, pid, item, now),
                pid,
                x,
                c,
            ),
{
    lemma_find_pair_props(rows, pid, item.0);
    let out = upsert_one(rows, pid, item, now);
    match find_pair(rows, pid, item.0) {
        Some(k) => {
            assert(out.len() == rows.len());
            assert(forall|i: int|
                0 <= i < rows.len() ==> (#[trigger] out[i]).product_id == rows[i].product_id
                    && out[i].other_id == rows[i].other_id && out[i].created_at
                    == rows[i].created_at);
            assert(rows[k].product_id == pid && rows[k].other_id == item.0);
            assert forall|x: i64| has_assoc(out, pid, x) implies has_assoc(rows, pid, x) by {
                let i = choose|i: int|
                    0 <= i < out.len() && (#[trigger] out[i]).product_id == pid && out[i].other_id
                        == x;
                assert(rows[i].product_id == pid && rows[i].other_id == x);
            }
            assert forall|x: i64| has_assoc(rows, pid, x) implies has_assoc(out, pid, x) by {
                let i = choose|i: int|
                    0 <= i < rows.len() && (#[trigger] rows[i]).product_id == pid
                        && rows[i].other_id == x;
                assert(out[i].product_id == pid && out[i].other_id == x);
            }
            assert(has_assoc(rows, pid, item.0));
            assert forall|x: i64, c: u64| has_assoc_created(rows, pid, x, c) implies
                has_assoc_created(out, pid, x, c) by {
                let i = choose|i: int|
                    0 <= i < rows.len() && (#[trigger] rows[i]).product_id == pid
                        && rows[i].other_id == x && rows[i].created_at == c;
                assert(out[i].product_id == pid && out[i].other_id == x && out[i].created_at == c);
            }
        },
        None => {
            assert(out.len() == rows.len() + 1);
            assert(forall|i: int| 0 <= i < rows.len() ==> out[i] == #[trigger] rows[i]);
            assert(out[rows.len() as int].product_id == pid && out[rows.len() as int].other_id
                == item.0);
            assert(has_assoc(out, pid, item.0));
            assert forall|x: i64| has_assoc(out, pid, x) implies (has_assoc(rows, pid, x) || x
                == item.0) by {
                let i = choose|i: int|
                    0 <= i < out.len() && (#[trigger] out[i]).product_id == pid && out[i].other_id
                        == x;
                if i < rows.len() {
                    assert(rows[i].product_id == pid && rows[i].other_id == x);
                }
            }
            assert forall|x: i64| has_assoc(rows, pid, x) implies has_assoc(out, pid, x) by {
                let i = choose|i: int|
                    0 <= i < rows.len() && (#[trigger] rows[i]).product_id == pid
                        && rows[i].other_id == x;
                assert(out[i].product_id == pid && out[i].other_id == x);
            }
            assert forall|x: i64, c: u64| has_assoc_created(rows, pid, x, c) implies
                has_assoc_created(out, pid, x, c) by {
                let i = choose|i: int|
                    0 <= i < rows.len() && (#[trigger] rows[i]).product_id == pid
                        && rows[i].other_id == x && rows[i].created_at == c;
                assert(out[i].product_id == pid && out[i].other_id == x && out[i].created_at == c);
            }
        },
    }
}

proof fn lemma_upsert_all_assoc(rows: Seq<AssocRow>, pid: i64, items: Seq<(i64, Option<u8>)>, now: u64)
    ensures
        forall|x: i64|
            has_assoc(upsert_all(rows, pid, items, now), pid, x) <==> (has_assoc(rows, pid, x)
                || ids_of(items).contains(x)),
        forall|x: i64, c: u64|
            has_assoc_created(rows, pid, x, c) ==> has_assoc_created(
                upsert_all(rows, pid, items, now),
                pid,
                x,
                c,
            ),
    decreases items.len(),
{
    if items.len() == 0 {
        assert(forall|x: i64| !ids_of(items).contains(x));
    } else {
        let rows1 = upsert_one(rows, pid, items[0], now);
        lemma_upsert_one_assoc(rows, pid, items[0], now);
        lemma_upsert_all_assoc(rows1, pid, items.drop_first(), now);
        assert(ids_of(items).drop_first() =~= ids_of(items.drop_first()));
        assert(forall|x: i64|
            ids_of(items).contains(x) <==> (x == items[0].0 || ids_of(items.drop_first()).contains(
                x,
            ))) by {
            assert(ids_of(items)[0] == items[0].0);
            assert(forall|x: i64|
                ids_of(items.drop_first()).contains(x) ==> #[trigger] ids_of(items).contains(x))
                by {
                assert(forall|j: int|
                    0 <= j < ids_of(items.drop_first()).len() ==> #[trigger] ids_of(
                        items.drop_first(),
                    )[j] == ids_of(items)[j + 1]);
            }
            assert(forall|x: i64|
                #[trigger] ids_of(items).contains(x) && x != items[0].0 ==> ids_of(
                    items.drop_first(),
                ).contains(x)) by {
                assert(forall|j: int|
                    1 <= j < ids_of(items).len() ==> #[trigger] ids_of(items)[j] == ids_of(
                        items.drop_first(),
                    )[j - 1]);
            }
        }
    }
}

proof fn lemma_keep_rows_assoc_x(rows: Seq<AssocRow>, pid: i64, keep: Seq<i64>, x: i64)
    ensures
        has_assoc(keep_rows(rows, pid, keep), pid, x) <==> (has_assoc(rows, pid, x)
            && keep.contains(x)),
    decreases rows.len(),
{
    if rows.len() == 0 {
        assert(!has_assoc(keep_rows(rows, pid, keep), pid, x));
        assert(!has_assoc(rows, pid, x));
    } else {
        lemma_keep_rows_assoc_x(rows.drop_last(), pid, keep, x);
        let dl = rows.drop_last();
        let rest = keep_rows(dl, pid, keep);
        let out = keep_rows(rows, pid, keep);
        let lastrow = rows.last();
        let kept_last = lastrow.product_id != pid || keep.contains(lastrow.other_id);
        assert(forall|i: int| 0 <= i < rows.len() - 1 ==> #[trigger] dl[i] == rows[i]);
        let last_matches = lastrow.product_id == pid && lastrow.other_id == x;
        assert(has_assoc(rows, pid, x) <==> (has_assoc(dl, pid, x) || last_matches)) by {
            if has_assoc(rows, pid, x) {
                let i = choose|i: int|
                    0 <= i < rows.len() && (#[trigger] rows[i]).product_id == pid
                        && rows[i].other_id == x;
                if i < rows.len() - 1 {
                    assert(dl[i].product_id == pid && dl[i].other_id == x);
                }
            }
            if has_assoc(dl, pid, x) {
                let i = choose|i: int|
                    0 <= i < dl.len() && (#[trigger] dl[i]).product_id == pid && dl[i].other_id
                        == x;
                assert(rows[i].product_id == pid && rows[i].other_id == x);
            }
            if last_matches {
                assert(rows[rows.len() - 1].product_id == pid && rows[rows.len() - 1].other_id
                    == x);
            }
        }
        if kept_last {
            assert(out == rest.push(lastrow));
            assert(forall|i: int| 0 <= i < rest.len() ==> #[trigger] out[i] == rest[i]);
            assert(has_assoc(out, pid, x) <==> (has_assoc(rest, pid, x) || last_matches)) by {
                if has_assoc(out, pid, x) {
                    let i = choose|i: int|
                        0 <= i < out.len() && (#[trigger] out[i]).product_id == pid
                            && out[i].other_id == x;
                    if i < rest.len() {
                        assert(rest[i].product_id == pid && rest[i].other_id == x);
                    } else {
                        assert(out[i] == lastrow);
                    }
                }
                if has_assoc(rest, pid, x) {
                    let i = choose|i: int|
                        0 <= i < rest.len() && (#[trigger] rest[i]).product_id == pid
                            && rest[i].other_id == x;
                    assert(out[i].product_id == pid && out[i].other_id == x);
                }
                if last_matches {
                    assert(out[out.len() - 1].product_id == pid && out[out.len() - 1].other_id
                        == x);
                }
            }
        } else {
            assert(out == rest);
            assert(!last_matches || !keep.contains(x));
        }
    }
}

proof fn lemma_keep_rows_created_x(rows: Seq<AssocRow>, pid: i64, keep: Seq<i64>, x: i64, c: u64)
    requires
        has_assoc_created(rows, pid, x, c),
        keep.contains(x),
    ensures
        has_assoc_created(keep_rows(rows, pid, keep), pid, x, c),
    decreases rows.len(),
{
    let dl = rows.drop_last();
    let rest = keep_rows(dl, pid, keep);
    let out = keep_rows(rows, pid, keep);
    let lastrow = rows.last();
    assert(forall|i: int| 0 <= i < rows.len() - 1 ==> #[trigger] dl[i] == rows[i]);
    let i = choose|i: int|
        0 <= i < rows.len() && (#[trigger] rows[i]).product_id == pid && rows[i].other_id == x
            && rows[i].created_at == c;
    if i < rows.len() - 1 {
        assert(dl[i].product_id == pid && dl[i].other_id == x && dl[i].created_at == c);
        lemma_keep_rows_created_x(dl, pid, keep, x, c);
        let j = choose|j: int|
            0 <= j < rest.len() && (#[trigger] rest[j]).product_id == pid && rest[j].other_id == x
                && rest[j].created_at == c;
        if lastrow.product_id != pid || keep.contains(lastrow.other_id) {
            assert(out == rest.push(lastrow));
            assert(out[j].product_id == pid && out[j].other_id == x && out[j].created_at == c);
        } else {
            assert(out == rest);
        }
    } else {
        assert(lastrow.product_id == pid && lastrow.other_id == x && lastrow.created_at == c);
        assert(out == rest.push(lastrow));
        assert(out[out.len() - 1].product_id == pid && out[out.len() - 1].other_id == x
            && out[out.len() - 1].created_at == c);
    }
}

proof fn lemma_keep_rows_assoc(rows: Seq<AssocRow>, pid: i64, keep: Seq<i64>)
    ensures
        forall|x: i64|
            #![trigger has_assoc(keep_rows(rows, pid, keep), pid, x)]
            has_assoc(keep_rows(rows, pid, keep), pid, x) <==> (has_assoc(rows, pid, x)
                && keep.contains(x)),
        forall|x: i64, c: u64|
            has_assoc_created(rows, pid, x, c) && keep.contains(x) ==> has_assoc_created(
                keep_rows(rows, pid, keep),
                pid,
                x,
                c,
            ),
{
    assert forall|x: i64|
        #![trigger has_assoc(keep_rows(rows, pid, keep), pid, x)]
        has_assoc(keep_rows(rows, pid, keep), pid, x) <==> (has_assoc(rows, pid, x)
            && keep.contains(x)) by {
        lemma_keep_rows_assoc_x(rows, pid, keep, x);
    }
    assert forall|x: i64, c: u64|
        has_assoc_created(rows, pid, x, c) && keep.contains(x) implies has_assoc_created(
        keep_rows(rows, pid, keep),
        pid,
        x,
        c,
    ) by {
        lemma_keep_rows_created_x(rows, pid, keep, x, c);
    }
}

/// Law: reconciliation is exact. Whatever was stored before, after
/// reconciling the associations of `pid` to `items` the stored
/// association set of `pid` is exactly the ids of `items` — so
/// reconciling to one target list and then to another leaves exactly the
/// second. An association kept across the call keeps its `created_at`.
pub proof fn lemma_reconcile_exact(
    rows: Seq<AssocRow>,
    pid: i64,
    items: Seq<(i64, Option<u8>)>,
    now: u64,
)
    ensures
        forall|x: i64|
            has_assoc(spec_reconcile(rows, pid, items, now), pid, x) <==> ids_of(items).contains(
                x,
            ),
        forall|x: i64, c: u64|
            has_assoc_created(rows, pid, x, c) && ids_of(items).contains(x)
                ==> has_assoc_created(spec_reconcile(rows, pid, items, now), pid, x, c),
{
    let mid = upsert_all(rows, pid, items, now);
    lemma_upsert_all_assoc(rows, pid, items, now);
    lemma_keep_rows_assoc(mid, pid, ids_of(items));
}

/// Whether some row joins `pid` to `x` and carries percentage `pct`.
pub open spec fn has_assoc_pct(rows: Seq<AssocRow>, pid: i64, x: i64, pct: Option<u8>) -> bool {
    exists|i: int|
        0 <= i < rows.len() && (#[trigger] rows[i]).product_id == pid && rows[i].other_id == x
            && rows[i].percentage == pct
}

proof fn lemma_upsert_one_other_x(
    rows: Seq<AssocRow>,
    pid: i64,
    item: (i64, Option<u8>),
    now: u64,
    p2: i64,
    x: i64,
)
    requires
        p2 != pid,
    ensures
        has_assoc(upsert_one(rows, pid, item, now), p2, x) <==> has_assoc(rows, p2, x),
{
    lemma_find_pair_props(rows, pid, item.0);
    let out = upsert_one(rows, pid, item, now);
    match find_pair(rows, pid, item.0) {
        Some(k) => {
            assert(forall|i: int|
                0 <= i < rows.len() ==> (#[trigger] out[i]).product_id == rows[i].product_id
                    && out[i].other_id == rows[i].other_id);
            if has_assoc(out, p2, x) {
                let i = choose|i: int|
                    0 <= i < out.len() && (#[trigger] out[i]).product_id == p2 && out[i].other_id
                        == x;
                assert(rows[i].product_id == p2 && rows[i].other_id == x);
            }
            if has_assoc(rows, p2, x) {
                let i = choose|i: int|
                    0 <= i < rows.len() && (#[trigger] rows[i]).product_id == p2 && rows[i].other_id
                        == x;
                assert(out[i].product_id == p2 && out[i].other_id == x);
            }
        },
        None => {
            assert(forall|i: int| 0 <= i < rows.len() ==> out[i] == #[trigger] rows[i]);
            if has_assoc(out, p2, x) {
                let i = choose|i: int|
                    0 <= i < out.len() && (#[trigger] out[i]).product_id == p2 && out[i].other_id
                        == x;
                assert(i < rows.len());
                assert(rows[i].product_id == p2 && rows[i].other_id == x);
            }
            if has_assoc(rows, p2, x) {
                let i = choose|i: int|
                    0 <= i < rows.len() && (#[trigger] rows[i]).product_id == p2 && rows[i].other_id
                        == x;
                assert(out[i].product_id == p2 && out[i].other_id == x);
            }
        },
    }
}

proof fn lemma_upsert_all_other_x(
    rows: Seq<AssocRow>,
    pid: i64,
    items: Seq<(i64, Option<u8>)>,
    now: u64,
    p2: i64,
    x: i64,
)
    requires
        p2 != pid,
    ensures
        has_assoc(upsert_all(rows, pid, items, now), p2, x) <==> has_assoc(rows, p2, x),
    decreases items.len(),
{
    if items.len() > 0 {
        lemma_upsert_one_other_x(rows, pid, items[0], now, p2, x);
        lemma_upsert_all_other_x(upsert_one(rows, pid, items[0], now), pid, items.drop_first(), now, p2, x);
    }
}

proof fn lemma_keep_rows_other_x(rows: Seq<AssocRow>, pid: i64, keep: Seq<i64>, p2: i64, x: i64)
    requires
        p2 != pid,
    ensures
        has_assoc(keep_rows(rows, pid, keep), p2, x) <==> has_assoc(rows, p2, x),
    decreases rows.len(),
{
    if rows.len() > 0 {
        lemma_keep_rows_other_x(rows.drop_last(), pid, keep, p2, x);
        let dl = rows.drop_last();
        let rest = keep_rows(dl, pid, keep);
        let out = keep_rows(rows, pid, keep);
        let lastrow = rows.last();
        assert(forall|i: int| 0 <= i < rows.len() - 1 ==> #[trigger] dl[i] == rows[i]);
        if lastrow.product_id != pid || keep.contains(lastrow.other_id) {
            assert(out == rest.push(lastrow));
            assert(forall|i: int| 0 <= i < rest.len() ==> #[trigger] out[i] == rest[i]);
            if has_assoc(out, p2, x) {
                let i = choose|i: int|
                    0 <= i < out.len() && (#[trigger] out[i]).product_id == p2 && out[i].other_id
                        == x;
                if i < rest.len() {
                    assert(has_assoc(rest, p2, x));
                    let k = choose|k: int|
                        0 <= k < dl.len() && (#[trigger] dl[k]).product_id == p2 && dl[k].other_id
                            == x;
                    assert(rows[k].product_id == p2 && rows[k].other_id == x);
                } else {
                    assert(out[i] == lastrow);
                    assert(rows[rows.len() - 1].product_id == p2 && rows[rows.len() - 1].other_id
                        == x);
                }
            }
            if has_assoc(rows, p2, x) {
                let i = choose|i: int|
                    0 <= i < rows.len() && (#[trigger] rows[i]).product_id == p2 && rows[i].other_id
                        == x;
                if i < rows.len() - 1 {
                    assert(dl[i].product_id == p2 && dl[i].other_id == x);
                    assert(has_assoc(rest, p2, x));
                    let k = choose|k: int|
                        0 <= k < rest.len() && (#[trigger] rest[k]).product_id == p2
                            && rest[k].other_id == x;
                    assert(out[k].product_id == p2 && out[k].other_id == x);
                } else {
                    assert(out[out.len() - 1].product_id == p2 && out[out.len() - 1].other_id == x);
                }
            }
        } else {
            assert(out == rest);
            assert(lastrow.product_id == pid);
            if has_assoc(rows, p2, x) {
                let i = choose|i: int|
                    0 <= i < rows.len() && (#[trigger] rows[i]).product_id == p2 && rows[i].other_id
                        == x;
                assert(i < rows.len() - 1);
                assert(dl[i].product_id == p2 && dl[i].other_id == x);
            }
        }
    }
}

/// Law: reconciliation stays inside its product. The associations of
/// every other product read the same before and after a reconciliation.
pub proof fn lemma_reconcile_preserves_others(
    rows: Seq<AssocRow>,
    pid: i64,
    items: Seq<(i64, Option<u8>)>,
    now: u64,
)
    ensures
        forall|p2: i64, x: i64|
            #![trigger has_assoc(spec_reconcile(rows, pid, items, now), p2, x)]
            p2 != pid ==> (has_assoc(spec_reconcile(rows, pid, items, now), p2, x) <==> has_assoc(
                rows,
                p2,
                x,
            )),
{
    let mid = upsert_all(rows, pid, items, now);
    assert forall|p2: i64, x: i64|
        #![trigger has_assoc(spec_reconcile(rows, pid, items, now), p2, x)]
        p2 != pid implies (has_assoc(spec_reconcile(rows, pid, items, now), p2, x) <==> has_assoc(
        rows,
        p2,
        x,
    )) by {
        lemma_upsert_all_other_x(rows, pid, items, now, p2, x);
        lemma_keep_rows_other_x(mid, pid, ids_of(items), p2, x);
    }
}

proof fn lemma_upsert_one_sets_pct(rows: Seq<AssocRow>, pid: i64, item: (i64, Option<u8>), now: u64)
    ensures
        has_assoc_pct(upsert_one(rows, pid, item, now), pid, item.0, item.1),
{
    lemma_find_pair_props(rows, pid, item.0);
    let out = upsert_one(rows, pid, item, now);
    match find_pair(rows, pid, item.0) {
        Some(k) => {
            assert(out[k].product_id == pid && out[k].other_id == item.0 && out[k].percentage
                == item.1);
        },
        None => {
            assert(out[rows.len() as int].product_id == pid && out[rows.len() as int].other_id
                == item.0 && out[rows.len() as int].percentage == item.1);
        },
    }
}

proof fn lemma_upsert_one_keeps_pct(
    rows: Seq<AssocRow>,
    pid: i64,
    item: (i64, Option<u8>),
    now: u64,
    x: i64,
    pct: Option<u8>,
)
    requires
        x != item.0,
        has_assoc_pct(rows, pid, x, pct),
    ensures
        has_assoc_pct(upsert_one(rows, pid, item, now), pid, x, pct),
{
    lemma_find_pair_props(rows, pid, item.0);
    let out = upsert_one(rows, pid, item, now);
    let i = choose|i: int|
        0 <= i < rows.len() && (#[trigger] rows[i]).product_id == pid && rows[i].other_id == x
            && rows[i].percentage == pct;
    match find_pair(rows, pid, item.0) {
        Some(k) => {
            assert(rows[k].other_id == item.0);
            assert(i != k);
            assert(out[i] == rows[i]);
        },
        None => {
            assert(out[i] == rows[i]);
        },
    }
}

proof fn lemma_upsert_all_keeps_pct(
    rows: Seq<AssocRow>,
    pid: i64,
    items: Seq<(i64, Option<u8>)>,
    now: u64,
    x: i64,
    pct: Option<u8>,
)
    requires
        has_assoc_pct(rows, pid, x, pct),
        forall|i: int| 0 <= i < items.len() ==> (#[trigger] items[i]).0 != x,
    ensures
        has_assoc_pct(upsert_all(rows, pid, items, now), pid, x, pct),
    decreases items.len(),
{
    if items.len() > 0 {
        lemma_upsert_one_keeps_pct(rows, pid, items[0], now, x, pct);
        let rows1 = upsert_one(rows, pid, items[0], now);
        assert(forall|i: int|
            0 <= i < items.drop_first().len() ==> #[trigger] items.drop_first()[i] == items[i + 1]);
        lemma_upsert_all_keeps_pct(rows1, pid, items.drop_first(), now, x, pct);
    }
}

proof fn lemma_upsert_all_last_pct(
    rows: Seq<AssocRow>,
    pid: i64,
    items: Seq<(i64, Option<u8>)>,
    now: u64,
    j: int,
)
    requires
        0 <= j < items.len(),
        forall|j2: int| j < j2 < items.len() ==> (#[trigger] items[j2]).0 != items[j].0,
    ensures
        has_assoc_pct(upsert_all(rows, pid, items, now), pid, items[j].0, items[j].1),
    decreases items.len(),
{
    let rows1 = upsert_one(rows, pid, items[0], now);
    if j == 0 {
        lemma_upsert_one_sets_pct(rows, pid, items[0], now);
        assert(forall|i: int|
            0 <= i < items.drop_first().len() ==> #[trigger] items.drop_first()[i] == items[i + 1]);
        lemma_upsert_all_keeps_pct(rows1, pid, items.drop_first(), now, items[0].0, items[0].1);
    } else {
        assert(forall|i: int|
            0 <= i < items.drop_first().len() ==> #[trigger] items.drop_first()[i] == items[i + 1]);
        lemma_upsert_all_last_pct(rows1, pid, items.drop_first(), now, j - 1);
        assert(items.drop_first()[j - 1] == items[j]);
    }
}

proof fn lemma_keep_rows_pct_x(
    rows: Seq<AssocRow>,
    pid: i64,
    keep: Seq<i64>,
    x: i64,
    pct: Option<u8>,
)
    requires
        has_assoc_pct(rows, pid, x, pct),
        keep.contains(x),
    ensures
        has_assoc_pct(keep_rows(rows, pid, keep), pid, x, pct),
    decreases rows.len(),
{
    let dl = rows.drop_last();
    let rest = keep_rows(dl, pid, keep);
    let out = keep_rows(rows, pid, keep);
    let lastrow = rows.last();
    assert(forall|i: int| 0 <= i < rows.len() - 1 ==> #[trigger] dl[i] == rows[i]);
    let i = choose|i: int|
        0 <= i < rows.len() && (#[trigger] rows[i]).product_id == pid && rows[i].other_id == x
            && rows[i].percentage == pct;
    if i < rows.len() - 1 {
        assert(dl[i].product_id == pid && dl[i].other_id == x && dl[i].percentage == pct);
        lemma_keep_rows_pct_x(dl, pid, keep, x, pct);
        let k = choose|k: int|
            0 <= k < rest.len() && (#[trigger] rest[k]).product_id == pid && rest[k].other_id == x
                && rest[k].percentage == pct;
        if lastrow.product_id != pid || keep.contains(lastrow.other_id) {
            assert(out == rest.push(lastrow));
            assert(out[k].product_id == pid && out[k].other_id == x && out[k].percentage == pct);
        } else {
            assert(out == rest);
        }
    } else {
        assert(lastrow.product_id == pid && lastrow.other_id == x && lastrow.percentage == pct);
        assert(out == rest.push(lastrow));
        assert(out[out.len() - 1].product_id == pid && out[out.len() - 1].other_id == x
            && out[out.len() - 1].percentage == pct);
    }
}

/// Law: reconciliation carries the percentages through. The last target
/// entry naming an id leaves the stored association of that id carrying
/// exactly its percentage.
pub proof fn lemma_reconcile_last_pct(
    rows: Seq<AssocRow>,
    pid: i64,
    items: Seq<(i64, Option<u8>)>,
    now: u64,
    j: int,
)
    requires
        0 <= j < items.len(),
        forall|j2: int| j < j2 < items.len() ==> (#[trigger] items[j2]).0 != items[j].0,
    ensures
        has_assoc_pct(spec_reconcile(rows, pid, items, now), pid, items[j].0, items[j].1),
{
    let mid = upsert_all(rows, pid, items, now);
    lemma_upsert_all_last_pct(rows, pid, items, now, j);
    assert(ids_of(items).contains(items[j].0)) by {
        assert(ids_of(items)[j] == items[j].0);
    }
    lemma_keep_rows_pct_x(mid, pid, ids_of(items), items[j].0, items[j].1);
}

/// Law: dimension resolution is stable. When a table only grew — its
/// old rows still stand, in place — a name stored before keeps looking
/// up the same row, so a persisted product's dimension references
/// resolve to the same ids on every later crawl.
pub proof fn lemma_dimension_lookup_stable(a: DimensionTable, b: DimensionTable, name: Seq<char>)
    requires
        a.wf(),
        b.rows@.len() >= a.rows@.len(),
        forall|i: int| 0 <= i < a.rows@.len() ==> #[trigger] b.rows@[i] == a.rows@[i],
        a.row_with(name) is Some,
    ensures
        b.row_with(name) == a.row_with(name),
{
    lemma_dim_row_with_props(a.rows@, name);
    let r = a.row_with(name)->Some_0;
    let i = choose|i: int|
        0 <= i < a.rows@.len() && a.rows@[i] == r && (#[trigger] a.rows@[i]).name@ == name;
    assert(forall|j: int| 0 <= j < i ==> (#[trigger] a.rows@[j]).name@ != name);
    lemma_dim_row_with_at(a.rows@, name, i);
    assert(forall|j: int| 0 <= j < i ==> (#[trigger] b.rows@[j]).name@ != name);
    lemma_dim_row_with_at(b.rows@, name, i);
}

/// With names unique, the row at an index is the one its own name
/// looks up.
pub proof fn lemma_category_lookup(t: CategoryTable, i: int)
    requires
        t.wf(),
        0 <= i < t.rows@.len(),
    ensures
        t.row_with(t.rows@[i].name@) == Some(t.rows@[i]),
{
    lemma_cat_row_with_at(t.rows@, t.rows@[i].name@, i);
}

/// The character of a single decimal digit.
pub open spec fn digit_char(d: nat) -> char {
    if d == 0 {
        '0'
    } else if d == 1 {
        '1'
    } else if d == 2 {
        '2'
    } else if d == 3 {
        '3'
    } else if d == 4 {
        '4'
    } else if d == 5 {
        '5'
    } else if d == 6 {
        '6'
    } else if d == 7 {
        '7'
    } else if d == 8 {
        '8'
    } else {
        '9'
    }
}

/// The decimal digits of `n`, most significant first.
pub open spec fn dec_digits_of(n: nat) -> Seq<char>
    decreases n,
{
    if n < 10 {
        seq![digit_char(n)]
    } else {
        dec_digits_of(n / 10) + seq![digit_char(n % 10)]
    }
}

/// The decimal writing of a signed integer.
pub open spec fn spec_i64_str(x: int) -> Seq<char> {
    if x < 0 {
        seq!['-'] + dec_digits_of((-x) as nat)
    } else {
        dec_digits_of(x as nat)
    }
}

/// The ids written out in decimal, separated by commas.
pub open spec fn spec_value_list(xs: Seq<i64>) -> Seq<char>
    decreases xs.len(),
{
    if xs.len() == 0 {
        Seq::empty()
    } else if xs.len() == 1 {
        spec_i64_str(xs[0] as int)
    } else {
        spec_i64_str(xs[0] as int) + seq![','] + spec_value_list(xs.drop_first())
    }
}

/// Whether `c` is one of the ten digit characters.
pub open spec fn is_dec_sym(c: char) -> bool {
    c == '0' || c == '1' || c == '2' || c == '3' || c == '4' || c == '5' || c == '6' || c == '7'
        || c == '8' || c == '9'
}

/// The digits of `m`, most significant first.
fn u64_digits(m: u64) -> (v: Vec<char>)
    ensures
        v@ == dec_digits_of(m as nat),
        forall|i: int| 0 <= i < v@.len() ==> is_dec_sym(#[trigger] v@[i]),
    decreases m,
{
    if m < 10 {
        let c = digit_char_of(m);
        let mut v: Vec<char> = Vec::new();
        v.push(c);
        proof {
            assert(v@ =~= seq![digit_char(m as nat)]);
        }
        v
    } else {
        let mut v = u64_digits(m / 10);
        let c = digit_char_of(m % 10);
        v.push(c);
        proof {
            assert(v@ =~= dec_digits_of((m / 10) as nat) + seq![digit_char((m % 10) as nat)]);
        }
        v
    }
}

/// The character of a digit below ten.
fn digit_char_of(d: u64) -> (c: char)
    requires
        d < 10,
    ensures
        c == digit_char(d as nat),
{
    if d == 0 {
        '0'
    } else if d == 1 {
        '1'
    } else if d == 2 {
        '2'
    } else if d == 3 {
        '3'
    } else if d == 4 {
        '4'
    } else if d == 5 {
        '5'
    } else if d == 6 {
        '6'
    } else if d == 7 {
        '7'
    } else if d == 8 {
        '8'
    } else {
        '9'
    }
}

/// Appends one digit, minus sign or comma to the string.
fn push_char(s: &mut String, c: char)
    requires
        c == '0' || c == '1' || c == '2' || c == '3' || c == '4' || c == '5' || c == '6' || c == '7'
            || c == '8' || c == '9' || c == '-' || c == ',',
    ensures
        final(s)@ == old(s)@ + seq![c],
{
    proof {
        reveal_strlit("0");
        reveal_strlit("1");
        reveal_strlit("2");
        reveal_strlit("3");
        reveal_strlit("4");
        reveal_strlit("5");
        reveal_strlit("6");
        reveal_strlit("7");
        reveal_strlit("8");
        reveal_strlit("9");
        reveal_strlit("-");
        reveal_strlit(",");
    }
    if c == '0' {
        proof {
            assert("0"@ =~= seq![c]);
        }
        s.append("0");
    } else if c == '1' {
        proof {
            assert("1"@ =~= seq![c]);
        }
        s.append("1");
    } else if c == '2' {
        proof {
            assert("2"@ =~= seq![c]);
        }
        s.append("2");
    } else if c == '3' {
        proof {
            assert("3"@ =~= seq![c]);
        }
        s.append("3");
    } else if c == '4' {
        proof {
            assert("4"@ =~= seq![c]);
        }
        s.append("4");
    } else if c == '5' {
        proof {
            assert("5"@ =~= seq![c]);
        }
        s.append("5");
    } else if c == '6' {
        proof {
            assert("6"@ =~= seq![c]);
        }
        s.append("6");
    } else if c == '7' {
        proof {
            assert("7"@ =~= seq![c]);
        }
        s.append("7");
    } else if c == '8' {
        proof {
            assert("8"@ =~= seq![c]);
        }
        s.append("8");
    } else if c == '9' {
        proof {
            assert("9"@ =~= seq![c]);
        }
        s.append("9");
    } else if c == '-' {
        proof {
            assert("-"@ =~= seq![c]);
        }
        s.append("-");
    } else {
        proof {
            assert(","@ =~= seq![c]);
        }
        s.append(",");
    }
}

proof fn lemma_value_list_snoc(xs: Seq<i64>, i: int)
    requires
        1 <= i < xs.len(),
    ensures
        spec_value_list(xs.take(i + 1)) == spec_value_list(xs.take(i)) + seq![','] + spec_i64_str(
            xs[i] as int,
        ),
    decreases i,
{
    if i == 1 {
        assert(xs.take(2)[0] == xs[0]);
        assert(xs.take(2).drop_first() =~= xs.subrange(1, 2));
        assert(xs.subrange(1, 2).len() == 1 && xs.subrange(1, 2)[0] == xs[1]);
        assert(spec_value_list(xs.take(2).drop_first()) == spec_i64_str(xs[1] as int));
        assert(xs.take(1).len() == 1 && xs.take(1)[0] == xs[0]);
    } else {
        lemma_value_list_snoc(xs.drop_first(), i - 1);
        assert(xs.take(i + 1)[0] == xs[0]);
        assert(xs.take(i)[0] == xs[0]);
        assert(xs.take(i + 1).drop_first() =~= xs.drop_first().take(i));
        assert(xs.take(i).drop_first() =~= xs.drop_first().take(i - 1));
        assert(xs.drop_first()[i - 1] == xs[i]);
        assert(xs.take(i + 1).len() == i + 1);
        assert(spec_value_list(xs.take(i + 1)) == spec_i64_str(xs[0] as int) + seq![',']
            + spec_value_list(xs.drop_first().take(i)));
        assert(spec_value_list(xs.take(i)) == spec_i64_str(xs[0] as int) + seq![',']
            + spec_value_list(xs.drop_first().take(i - 1)));
        assert((spec_i64_str(xs[0] as int) + seq![','] + (spec_value_list(
            xs.drop_first().take(i - 1),
        ) + seq![','] + spec_i64_str(xs[i] as int))) =~= ((spec_i64_str(xs[0] as int) + seq![',']
            + spec_value_list(xs.drop_first().take(i - 1))) + seq![','] + spec_i64_str(
            xs[i] as int,
        )));
    }
}

/// Appends the decimal writing of `x` to the string.
fn push_i64(s: &mut String, x: i64)
    ensures
        final(s)@ == old(s)@ + spec_i64_str(x as int),
{
    if x < 0 {
        push_char(s, '-');
        let mag: u64 = (-(x as i128)) as u64;
        let digits = u64_digits(mag);
        let ghost mid = s@;
        let n = digits.len();
        let mut i: usize = 0;
        while i < n
            invariant
                i <= n,
                n == digits@.len(),
                forall|j: int| 0 <= j < n ==> is_dec_sym(#[trigger] digits@[j]),
                s@ == mid + digits@.take(i as int),
            decreases n - i,
        {
            let c = digits[i];
            push_char(s, c);
            proof {
                assert(mid + digits@.take(i as int) + seq![digits@[i as int]] =~= mid
                    + digits@.take(i + 1));
            }
            i += 1;
        }
        proof {
            assert(digits@.take(n as int) =~= digits@);
            assert(old(s)@ + seq!['-'] + dec_digits_of(mag as nat) =~= old(s)@ + (seq!['-']
                + dec_digits_of(mag as nat)));
        }
    } else {
        let digits = u64_digits(x as u64);
        let ghost mid = s@;
        let n = digits.len();
        let mut i: usize = 0;
        while i < n
            invariant
                i <= n,
                n == digits@.len(),
                forall|j: int| 0 <= j < n ==> is_dec_sym(#[trigger] digits@[j]),
                s@ == mid + digits@.take(i as int),
            decreases n - i,
        {
            let c = digits[i];
            push_char(s, c);
            proof {
                assert(mid + digits@.take(i as int) + seq![digits@[i as int]] =~= mid
                    + digits@.take(i + 1));
            }
            i += 1;
        }
        proof {
            assert(digits@.take(n as int) =~= digits@);
        }
    }
}

/// Encodes a list of ids as a comma-separated string, the form a batch
/// membership predicate over ids takes when written out.
pub fn to_value_list(list: &Vec<i64>) -> (r: String)
    ensures
        r@ == spec_value_list(list@),
{
    let mut s = String::new();
    let n = list.len();
    let mut i: usize = 0;
    while i < n
        invariant
            i <= n,
            n == list@.len(),
            s@ == spec_value_list(list@.take(i as int)),
        decreases n - i,
    {
        if i > 0 {
            push_char(&mut s, ',');
        }
        let x = list[i];
        push_i64(&mut s, x);
        proof {
            if i == 0 {
                assert(list@.take(1).len() == 1 && list@.take(1)[0] == list@[0]);
                assert(Seq::<char>::empty() + spec_i64_str(list@[0] as int) =~= spec_i64_str(
                    list@[0] as int,
                ));
            } else {
                lemma_value_list_snoc(list@, i as int);
                assert(spec_value_list(list@.take(i as int)) + seq![','] + spec_i64_str(
                    list@[i as int] as int,
                ) =~= spec_value_list(list@.take(i as int)) + (seq![','] + spec_i64_str(
                    list@[i as int] as int,
                )));
                assert(s@ == spec_value_list(list@.take(i as int)) + seq![','] + spec_i64_str(
                    list@[i as int] as int,
                ));
            }
        }
        i += 1;
    }
    proof {
        assert(list@.take(n as int) =~= list@);
    }
    s
}

/// Law: the dimension upsert is idempotent. Once an upsert of `name`
/// has returned `id`, the table holds exactly one row named `name`, and
/// that row carries `id` — so by the upsert's contract a second call
/// with the same name returns the same id and writes nothing.
pub proof fn lemma_dimension_upsert_idempotent(
    c: Client,
    kind: DimensionKind,
    name: Seq<char>,
    id: i64,
)
    requires
        c.wf(),
        c.dim(kind).row_with(name) matches Some(row) && row.id == id,
    ensures
        exists|i: int|
            0 <= i < c.dim(kind).rows@.len() && (#[trigger] c.dim(kind).rows@[i]).name@ == name
                && c.dim(kind).rows@[i].id == id,
        forall|i: int, j: int|
            #![trigger c.dim(kind).rows@[i], c.dim(kind).rows@[j]]
            0 <= i < c.dim(kind).rows@.len() && 0 <= j < c.dim(kind).rows@.len() && c.dim(kind).rows@[i].name@ == name && c.dim(kind).rows@[j].name@ == name ==> i == j,
{
    lemma_dim_row_with_props(c.dim(kind).rows@, name);
    let row = c.dim(kind).row_with(name)->Some_0;
    let i = choose|i: int|
        0 <= i < c.dim(kind).rows@.len() && c.dim(kind).rows@[i] == row && (#[trigger] c.dim(kind).rows@[i]).name@ == name;
    assert(c.dim(kind).rows@[i].id == id);
}

/// Law: a stored category row's `updated_at` lies at or below the clock,
/// so the write a changed upsert performs — stamped `clock + 1` —
/// strictly increases it, while the no-write branch of the upsert's
/// contract leaves it untouched.
pub proof fn lemma_category_touch_increases(c: Client, name: Seq<char>)
    requires
        c.wf(),
        c.categories.row_with(name) is Some,
    ensures
        c.categories.row_with(name)->Some_0.updated_at <= c.clock,
{
    lemma_cat_row_with_props(c.categories.rows@, name);
}

/// Law: a stored product row's `updated_at` lies at or below the clock,
/// so the write a repeated upsert performs — stamped `clock + 1` —
/// strictly increases it even when no field changed, while the row's id
/// and `created_at` stay what they were.
pub proof fn lemma_product_touch_increases(c: Client, code: Seq<char>)
    requires
        c.wf(),
        c.products.row_with(code) is Some,
    ensures
        c.products.row_with(code)->Some_0.updated_at <= c.clock,
{
    lemma_prod_row_with_props(c.products.rows@, code);
}

} // verus!
