//! The crawl pipeline's decisions, the queue discipline that coordinates
//! it, and the persistence orchestrator that turns one extracted product
//! into store writes.
//!
//! The pipeline itself runs outside the library: one producer walks the
//! catalog pages and a fixed pool of workers fetches and persists
//! products, all joined by one bounded queue. What stands here is every
//! decision those tasks take, as functions from plain values to plain
//! values, so the runner only performs I/O and hands the results back.

use vstd::prelude::*;
use crate::detailed_info::GrapeVariety;
use crate::glue::DbSerialize;
use crate::linked_data::Product;
use crate::saq::{first_breadcrumbs, first_ld_product, spec_categories, ExtractError, ExtractedProduct};
use crate::store::{
    has_assoc, has_assoc_pct, ids_of, lemma_category_lookup, lemma_reconcile_exact,
    lemma_reconcile_last_pct, lemma_reconcile_preserves_others, with_no_pct, AssocRow,
    CategoryTable, Client, DimensionKind, DimensionTable, ProductUpsertFields, StoreError,
};

verus! {

/// A send or receive that cannot go ahead right now.
///
/// The queue models the pipeline's channel discipline cooperatively: a
/// caller told `WouldBlock` is one that the real, blocking channel would
/// suspend until the other side makes room or sends.
#[derive(Debug, Clone, Copy, PartialEq, Eq, Structural)]
pub enum QueueRefusal {
    /// The operation would have to wait: the queue is full (for a send)
    /// or empty but still open (for a receive).
    WouldBlock,
    /// The queue is closed: closed to new items (for a send), or closed
    /// and fully drained (for a receive).
    Closed,
}

/// The pipeline's coordination point: a closable bounded FIFO queue.
///
/// Sends are refused while the queue holds `capacity` items — the
/// producer cannot outrun persistence — and once it is closed. Receives
/// drain remaining items even after closure; only a closed **and** empty
/// queue turns workers away for good, which is the pipeline's only stop
/// signal.
#[derive(Debug)]
pub struct BoundedQueue<T> {
    /// The queued items, oldest first.
    pub items: Vec<T>,
    /// The most items the queue ever holds.
    pub capacity: usize,
    /// Whether the queue was closed.
    pub closed: bool,
}

impl<T> BoundedQueue<T> {
    /// The queue never holds more than its capacity.
    pub open spec fn wf(self) -> bool {
        self.items@.len() <= self.capacity && self.capacity >= 1
    }

    /// Returns a new, open, empty queue.
    pub fn new(capacity: usize) -> (q: BoundedQueue<T>)
        requires
            capacity >= 1,
        ensures
            q.wf(),
            q.items@.len() == 0,
            q.capacity == capacity,
            !q.closed,
    {
        BoundedQueue { items: Vec::new(), capacity, closed: false }
    }

    /// Offers one item. Refused with the item's value when the queue is
    /// closed, or with `WouldBlock` while it is full.
    pub fn send(&mut self, v: T) -> (r: Result<(), (QueueRefusal, T)>)
        requires
            old(self).wf(),
        ensures
            final(self).wf(),
            final(self).capacity == old(self).capacity,
            final(self).closed == old(self).closed,
            if old(self).closed {
                r matches Err((QueueRefusal::Closed, x)) && x == v && final(self).items@ == old(
                    self,
                ).items@
            } else if old(self).items@.len() == old(self).capacity {
                r matches Err((QueueRefusal::WouldBlock, x)) && x == v && final(self).items@ == old(
                    self,
                ).items@
            } else {
                r is Ok && final(self).items@ == old(self).items@.push(v)
            },
    {
        if self.closed {
            return Err((QueueRefusal::Closed, v));
        }
        if self.items.len() == self.capacity {
            return Err((QueueRefusal::WouldBlock, v));
        }
        self.items.push(v);
        Ok(())
    }

    /// Takes the oldest item. An open, empty queue answers `WouldBlock`;
    /// a closed queue still hands out what is left, and answers `Closed`
    /// only once drained.
    pub fn recv(&mut self) -> (r: Result<T, QueueRefusal>)
        requires
            old(self).wf(),
        ensures
            final(self).wf(),
            final(self).capacity == old(self).capacity,
            final(self).closed == old(self).closed,
            if old(self).items@.len() > 0 {
                r matches Ok(x) && x == old(self).items@[0] && final(self).items@ == old(
                    self,
                ).items@.drop_first()
            } else if old(self).closed {
                r matches Err(e) && e == QueueRefusal::Closed && final(self).items@ == old(
                    self,
                ).items@
            } else {
                r matches Err(e) && e == QueueRefusal::WouldBlock && final(self).items@ == old(
                    self,
                ).items@
            },
    {
        if self.items.len() > 0 {
            let v = self.items.remove(0);
            proof {
                assert(self.items@ =~= old(self).items@.drop_first());
            }
            return Ok(v);
        }
        if self.closed {
            Err(QueueRefusal::Closed)
        } else {
            Err(QueueRefusal::WouldBlock)
        }
    }

    /// Closes the queue: no further sends are accepted, already-queued
    /// items may still be received.
    pub fn close(&mut self)
        requires
            old(self).wf(),
        ensures
            final(self).wf(),
            final(self).capacity == old(self).capacity,
            final(self).items@ == old(self).items@,
            final(self).closed,
    {
        self.closed = true;
    }
}

/// What the producer does after one page fetch.
#[derive(Debug)]
pub enum ProducerDecision<E> {
    /// Enqueue every stub of the page, then fetch the next page.
    Continue {
        /// The stubs the page listed, to be sent one by one.
        stubs: Vec<Product>,
        /// The page to request next.
        next_page: u32,
    },
    /// Close the queue and finish successfully: the catalog is exhausted.
    FinishOk,
    /// Close the queue and finish with the fetch's error.
    FinishErr(E),
}

/// Decides the producer's next move from one page-fetch outcome: a page
/// of stubs continues the walk at the next page number, the past-the-end
/// sentinel ends the crawl successfully, and an error ends it with that
/// error. Either ending closes the queue.
pub fn producer_step<E>(page_number: u32, fetch: Result<Option<Vec<Product>>, E>) -> (r:
    ProducerDecision<E>)
    requires
        page_number < u32::MAX,
    ensures
        match fetch {
            Ok(Some(stubs)) => r matches ProducerDecision::Continue { stubs: s, next_page } && s
                == stubs && next_page == page_number + 1,
            Ok(None) => r is FinishOk,
            Err(e) => r matches ProducerDecision::FinishErr(e2) && e2 == e,
        },
{
    match fetch {
        Ok(Some(stubs)) => ProducerDecision::Continue { stubs, next_page: page_number + 1 },
        Ok(None) => ProducerDecision::FinishOk,
        Err(e) => ProducerDecision::FinishErr(e),
    }
}

/// What a worker does after one receive.
#[derive(Debug)]
pub enum WorkerDecision {
    /// Fetch, extract and persist this stub, then receive again.
    Work(Product),
    /// The queue is closed and drained: exit successfully.
    Exit,
}

/// Decides a worker's next move from one receive outcome: an item is
/// worked, a drained-and-closed queue ends the worker successfully.
pub fn worker_step(received: Result<Product, QueueRefusal>) -> (r: Result<
    WorkerDecision,
    QueueRefusal,
>)
    ensures
        match received {
            Ok(p) => r matches Ok(WorkerDecision::Work(p2)) && p2 == p,
            Err(e) => {
                if e == QueueRefusal::Closed {
                    r matches Ok(d) && d is Exit
                } else {
                    r matches Err(e2) && e2 == e
                }
            },
        },
{
    match received {
        Ok(p) => Ok(WorkerDecision::Work(p)),
        Err(QueueRefusal::Closed) => Ok(WorkerDecision::Exit),
        Err(e) => Err(e),
    }
}

/// Why persisting one extracted product failed.
#[derive(Debug, Clone, Copy, PartialEq, Eq, Structural)]
pub enum PersistError {
    /// The extraction lacked a required linked-data entry.
    Extract(ExtractError),
    /// The store could not take another write.
    Store(StoreError),
}

/// An optional dimension reference of a product row resolves exactly
/// the optional name the extraction carried: absent name, absent
/// reference; present name, a reference to a row holding that name.
pub open spec fn dim_ref_matches(dim: DimensionTable, id: Option<i64>, name: Option<String>) -> bool {
    match name {
        Some(n) => id matches Some(x) && 1 <= x <= dim.rows@.len() && dim.rows@[x - 1].name@
            == n@,
        None => id is None,
    }
}

/// Some id whose dimension row holds `name` is associated with `pid`.
pub open spec fn has_named_assoc(
    dim: DimensionTable,
    rows: Seq<AssocRow>,
    pid: i64,
    name: Seq<char>,
) -> bool {
    exists|x: i64|
        #![trigger has_assoc(rows, pid, x)]
        1 <= x <= dim.rows@.len() && dim.rows@[x - 1].name@ == name && has_assoc(rows, pid, x)
}

/// The association rows of `pid` are exactly the given names: every name
/// resolves to an associated dimension row, and every associated id
/// points at a row holding one of the names.
pub open spec fn assoc_matches_names(
    dim: DimensionTable,
    rows: Seq<AssocRow>,
    pid: i64,
    names: Seq<Seq<char>>,
) -> bool {
    &&& forall|j: int| 0 <= j < names.len() ==> has_named_assoc(dim, rows, pid, #[trigger] names[j])
    &&& forall|x: i64|
        has_assoc(rows, pid, x) ==> 1 <= x <= dim.rows@.len() && (exists|j: int|
            0 <= j < names.len() && dim.rows@[x - 1].name@ == #[trigger] names[j])
}

/// Some id whose category row holds `name` is associated with `pid`.
pub open spec fn has_named_cat_assoc(
    cats: CategoryTable,
    rows: Seq<AssocRow>,
    pid: i64,
    name: Seq<char>,
) -> bool {
    exists|x: i64|
        #![trigger has_assoc(rows, pid, x)]
        1 <= x <= cats.rows@.len() && cats.rows@[x - 1].name@ == name && has_assoc(rows, pid, x)
}

/// The category associations of `pid` are exactly the extracted
/// category chain: every chain entry names an associated category row,
/// and every associated id points at a row named in the chain.
pub open spec fn cat_assoc_matches(
    cats: CategoryTable,
    rows: Seq<AssocRow>,
    pid: i64,
    chain: Seq<(Seq<char>, Seq<char>)>,
) -> bool {
    &&& forall|j: int|
        0 <= j < chain.len() ==> has_named_cat_assoc(cats, rows, pid, (#[trigger] chain[j]).0)
    &&& forall|x: i64|
        has_assoc(rows, pid, x) ==> 1 <= x <= cats.rows@.len() && (exists|j: int|
            0 <= j < chain.len() && cats.rows@[x - 1].name@ == (#[trigger] chain[j]).0)
}

/// The names of a grape-variety list.
pub open spec fn variety_names(gs: Seq<GrapeVariety>) -> Seq<Seq<char>> {
    gs.map_values(|g: GrapeVariety| g.name@)
}

/// Turns a borrowed optional text field into an owned one.
fn clone_opt_string(o: &Option<String>) -> (r: Option<String>)
    ensures
        match r {
            Some(x) => o matches Some(y) && x@ == y@,
            None => o is None,
        },
{
    match o {
        Some(s) => Some(s.clone()),
        None => None,
    }
}

/// The views of a list of owned strings.
pub open spec fn names_of(ss: Seq<String>) -> Seq<Seq<char>> {
    ss.map_values(|s: String| s@)
}

/// How many entries an optional feature list carries.
pub open spec fn feature_count(o: Option<Vec<String>>) -> int {
    match o {
        Some(v) => v@.len() as int,
        None => 0,
    }
}

/// How many entries an optional grape-variety list carries.
pub open spec fn variety_count(o: Option<Vec<GrapeVariety>>) -> int {
    match o {
        Some(v) => v@.len() as int,
        None => 0,
    }
}

/// How many entries the page's category chain carries.
pub open spec fn category_count(product: ExtractedProduct) -> int {
    match first_breadcrumbs(product.linked_data@) {
        Some(b) => spec_categories(b.item_list_element@).len() as int,
        None => 0,
    }
}

/// Some id whose dimension row holds `name` is associated with `pid`,
/// carrying percentage `pct`.
pub open spec fn has_named_assoc_pct(
    dim: DimensionTable,
    rows: Seq<AssocRow>,
    pid: i64,
    name: Seq<char>,
    pct: Option<u8>,
) -> bool {
    exists|x: i64|
        #![trigger has_assoc_pct(rows, pid, x, pct)]
        1 <= x <= dim.rows@.len() && dim.rows@[x - 1].name@ == name && has_assoc_pct(
            rows,
            pid,
            x,
            pct,
        )
}

/// Whether chain entry `j` is the last of its name in the chain; a later
/// entry with the same name would rewrite the row's URL and parent.
pub open spec fn last_of_name(chain: Seq<(Seq<char>, Seq<char>)>, j: int) -> bool {
    forall|j2: int| j < j2 < chain.len() ==> (#[trigger] chain[j2]).0 != chain[j].0
}

/// Chain entry `j` is stored linked parent-to-child: the category row
/// holding its name carries its URL, and its parent reference is the row
/// of the entry before it (none for the chain's first entry).
pub open spec fn chain_entry_linked(
    cats: CategoryTable,
    chain: Seq<(Seq<char>, Seq<char>)>,
    j: int,
) -> bool {
    &&& cats.row_with(chain[j].0) matches Some(row)
    &&& row.url@ == chain[j].1
    &&& row.parent_id == (if j == 0 {
        None::<i64>
    } else {
        Some(cats.row_with(chain[j - 1].0)->Some_0.id)
    })
}

/// Resolves one optional named attribute to its dimension row id,
/// creating the row when the name is new.
fn resolve_dimension(db: &mut Client, kind: DimensionKind, name: &Option<String>) -> (r: Result<
    Option<i64>,
    PersistError,
>)
    requires
        old(db).wf(),
    ensures
        final(db).wf(),
        final(db).dims@.len() == 10,
        Client::non_dims_unchanged(*old(db), *final(db)),
        forall|i: int|
            0 <= i < 10 && i != crate::store::dim_index(kind) ==> final(db).dims@[i] == old(db).dims@[i],
        final(db).dim(kind).rows@.len() >= old(db).dim(kind).rows@.len(),
        final(db).dim(kind).rows@.len() <= old(db).dim(kind).rows@.len() + 1,
        forall|i: int|
            0 <= i < old(db).dim(kind).rows@.len() ==> final(db).dim(kind).rows@[i] == old(db).dim(
                kind,
            ).rows@[i],
        old(db).clock <= final(db).clock <= old(db).clock + 1,
        r matches Err(e) ==> e == PersistError::Store(StoreError::Full) && *final(db) == *old(db),
        old(db).clock < u64::MAX && old(db).dim(kind).rows@.len() + 1 <= i64::MAX ==> r is Ok,
        r matches Ok(id) ==> dim_ref_matches(final(db).dim(kind), id, *name),
{
    match name {
        Some(n) => match db.upsert_dimension(kind, n.as_str()) {
            Ok(id) => Ok(Some(id)),
            Err(e) => Err(PersistError::Store(e)),
        },
        None => Ok(None),
    }
}

/// Resolves the dimension references and upserts the product aggregate
/// row for one extracted product, returning the row's id.
#[verifier::rlimit(100)]
fn upsert_aggregate_row(db: &mut Client, product: &ExtractedProduct) -> (r: Result<
    i64,
    PersistError,
>)
    requires
        old(db).wf(),
    ensures
        final(db).wf(),
        final(db).dims@.len() == 10,
        final(db).categories == old(db).categories,
        final(db).product_special_features == old(db).product_special_features,
        final(db).product_grape_varieties == old(db).product_grape_varieties,
        final(db).product_categories == old(db).product_categories,
        old(db).clock <= final(db).clock <= old(db).clock + 9,
        forall|k: int|
            0 <= k < 10 ==> old(db).dims@[k].rows@.len() <= (
            #[trigger] final(db).dims@[k]).rows@.len() <= old(db).dims@[k].rows@.len() + 1,
        forall|k: int, i: int|
            0 <= k < 10 && 0 <= i < old(db).dims@[k].rows@.len() ==> #[trigger] final(db).dims@[k].rows@[i] == old(db).dims@[k].rows@[i],
        final(db).products.rows@.len() >= old(db).products.rows@.len(),
        forall|i: int|
            0 <= i < old(db).products.rows@.len() && (
            #[trigger] old(db).products.rows@[i]).fields.saq_code@
                != product.detailed_info.saq_code@ ==> final(db).products.rows@[i] == old(db).products.rows@[i],
        r matches Err(PersistError::Extract(e)) ==> e == ExtractError::MissingProduct
            && first_ld_product(product.linked_data@) is None,
        r matches Err(PersistError::Store(e)) ==> e == StoreError::Full,
        first_ld_product(product.linked_data@) is Some && old(db).clock + 9 <= u64::MAX && (
        forall|k: int| 0 <= k < 10 ==> (#[trigger] old(db).dims@[k]).rows@.len() + 1 <= i64::MAX)
            && old(db).products.rows@.len() + 1 <= i64::MAX ==> r is Ok,
        r matches Ok(pid) ==> first_ld_product(product.linked_data@) is Some,
        r matches Ok(pid) ==> ({
            let di = product.detailed_info;
            let ld = first_ld_product(product.linked_data@)->Some_0;
            &&& final(db).products.row_with(di.saq_code@) == Some(
                final(db).products.rows@[pid - 1],
            )
            &&& 1 <= pid <= final(db).products.rows@.len()
            &&& ({
                let row = final(db).products.rows@[pid - 1];
                &&& row.id == pid
                &&& row.fields.saq_code@ == di.saq_code@
                &&& row.fields.name@ == ld.name@
                &&& row.fields.description@ == ld.description@
                &&& row.fields.image_url@ == ld.image@
                &&& row.fields.availability@ == ld.offers.availability.db_repr()
                &&& row.fields.item_condition@ == ld.offers.item_condition.db_repr()
                &&& row.fields.price_cad == ld.offers.price
                &&& row.fields.abv_percentage == di.abv_percentage
                &&& (match di.size {
                    Some(s) => row.fields.container_count == Some(s.container_count)
                        && row.fields.container_milliliters == Some(s.container_milliliters),
                    None => row.fields.container_count is None
                        && row.fields.container_milliliters is None,
                })
                &&& (match di.product_of_quebec {
                    Some(q) => row.fields.product_of_quebec matches Some(s) && s@ == q.db_repr(),
                    None => row.fields.product_of_quebec is None,
                })
                &&& (match di.sugar_content {
                    Some(sc) => (row.fields.sugar_content_equality matches Some(s) && s@
                        == sc.equality.db_repr()) && row.fields.sugar_content_grams_per_liter
                        == Some(sc.grams_per_liter),
                    None => row.fields.sugar_content_equality is None
                        && row.fields.sugar_content_grams_per_liter is None,
                })
                &&& (match di.upc_code {
                    Some(u) => row.fields.upc_code matches Some(s) && s@ == u@,
                    None => row.fields.upc_code is None,
                })
                &&& dim_ref_matches(
                    final(db).dim(DimensionKind::Producer),
                    row.fields.producer_id,
                    di.producer,
                )
                &&& dim_ref_matches(
                    final(db).dim(DimensionKind::PromotingAgent),
                    row.fields.promoting_agent_id,
                    di.promoting_agent,
                )
                &&& dim_ref_matches(
                    final(db).dim(DimensionKind::Color),
                    row.fields.color_id,
                    di.color,
                )
                &&& dim_ref_matches(
                    final(db).dim(DimensionKind::Region),
                    row.fields.region_id,
                    di.region,
                )
                &&& dim_ref_matches(
                    final(db).dim(DimensionKind::Country),
                    row.fields.country_id,
                    di.country,
                )
                &&& dim_ref_matches(
                    final(db).dim(DimensionKind::RegulatedDesignation),
                    row.fields.regulated_designation_id,
                    di.regulated_designation,
                )
                &&& dim_ref_matches(
                    final(db).dim(DimensionKind::DesignationOfOrigin),
                    row.fields.designation_of_origin_id,
                    di.designation_of_origin,
                )
                &&& dim_ref_matches(
                    final(db).dim(DimensionKind::Classification),
                    row.fields.classification_id,
                    di.classification,
                )
            })
        }),
{
    let di = &product.detailed_info;
    let producer_id = match resolve_dimension(db, DimensionKind::Producer, &di.producer) {
        Ok(v) => v,
        Err(e) => {
            return Err(e);
        },
    };
    let promoting_agent_id = match resolve_dimension(
        db,
        DimensionKind::PromotingAgent,
        &di.promoting_agent,
    ) {
        Ok(v) => v,
        Err(e) => {
            return Err(e);
        },
    };
    let color_id = match resolve_dimension(db, DimensionKind::Color, &di.color) {
        Ok(v) => v,
        Err(e) => {
            return Err(e);
        },
    };
    let region_id = match resolve_dimension(db, DimensionKind::Region, &di.region) {
        Ok(v) => v,
        Err(e) => {
            return Err(e);
        },
    };
    let country_id = match resolve_dimension(db, DimensionKind::Country, &di.country) {
        Ok(v) => v,
        Err(e) => {
            return Err(e);
        },
    };
    let regulated_designation_id = match resolve_dimension(
        db,
        DimensionKind::RegulatedDesignation,
        &di.regulated_designation,
    ) {
        Ok(v) => v,
        Err(e) => {
            return Err(e);
        },
    };
    let designation_of_origin_id = match resolve_dimension(
        db,
        DimensionKind::DesignationOfOrigin,
        &di.designation_of_origin,
    ) {
        Ok(v) => v,
        Err(e) => {
            return Err(e);
        },
    };
    let classification_id = match resolve_dimension(
        db,
        DimensionKind::Classification,
        &di.classification,
    ) {
        Ok(v) => v,
        Err(e) => {
            return Err(e);
        },
    };
    let ld_product = match product.get_ld_product() {
        Ok(p) => p,
        Err(e) => {
            return Err(PersistError::Extract(e));
        },
    };
    let container_count: Option<u8> = match &di.size {
        Some(s) => Some(s.container_count),
        None => None,
    };
    let container_milliliters: Option<u32> = match &di.size {
        Some(s) => Some(s.container_milliliters),
        None => None,
    };
    let product_of_quebec: Option<String> = match &di.product_of_quebec {
        Some(q) => Some(q.db_serialize().to_owned()),
        None => None,
    };
    let sugar_content_equality: Option<String> = match &di.sugar_content {
        Some(sc) => Some(sc.equality.db_serialize().to_owned()),
        None => None,
    };
    let sugar_content_grams_per_liter = match &di.sugar_content {
        Some(sc) => Some(sc.grams_per_liter),
        None => None,
    };
    let fields = ProductUpsertFields {
        abv_percentage: di.abv_percentage,
        availability: ld_product.offers.availability.db_serialize().to_owned(),
        classification_id,
        color_id,
        container_count,
        container_milliliters,
        country_id,
        description: ld_product.description.clone(),
        designation_of_origin_id,
        image_url: ld_product.image.clone(),
        item_condition: ld_product.offers.item_condition.db_serialize().to_owned(),
        name: ld_product.name.clone(),
        price_cad: ld_product.offers.price,
        producer_id,
        product_of_quebec,
        promoting_agent_id,
        region_id,
        regulated_designation_id,
        saq_code: di.saq_code.clone(),
        sugar_content_equality,
        sugar_content_grams_per_liter,
        upc_code: clone_opt_string(&di.upc_code),
    };
    proof {
        assert(crate::store::checks_ok(fields));
        assert(db.product_fk_ok(fields));
    }
    let product_id = match db.upsert_product(fields) {
        Ok(id) => id,
        Err(e) => {
            return Err(PersistError::Store(e));
        },
    };
    Ok(product_id)
}

/// Makes the special-feature rows and associations of one product match
/// the extraction's feature list: each feature name is upserted into the
/// special-features table and the association set is reconciled to
/// exactly those ids. An absent list empties the association set.
#[verifier::rlimit(100)]
#[verifier::loop_isolation(false)]
fn sync_special_features(db: &mut Client, product_id: i64, features: &Option<Vec<String>>) -> (r:
    Result<(), PersistError>)
    requires
        old(db).wf(),
        1 <= product_id <= old(db).products.rows@.len(),
    ensures
        final(db).wf(),
        final(db).dims@.len() == 10,
        final(db).products == old(db).products,
        final(db).categories == old(db).categories,
        final(db).product_grape_varieties == old(db).product_grape_varieties,
        final(db).product_categories == old(db).product_categories,
        forall|i: int| 0 <= i < 10 && i != 9 ==> final(db).dims@[i] == old(db).dims@[i],
        old(db).clock <= final(db).clock <= old(db).clock + feature_count(*features) + 1,
        old(db).dim(DimensionKind::SpecialFeature).rows@.len() <= final(db).dim(
            DimensionKind::SpecialFeature,
        ).rows@.len() <= old(db).dim(DimensionKind::SpecialFeature).rows@.len() + feature_count(
            *features,
        ),
        forall|i: int|
            0 <= i < old(db).dim(DimensionKind::SpecialFeature).rows@.len() ==> final(db).dim(
                DimensionKind::SpecialFeature,
            ).rows@[i] == old(db).dim(DimensionKind::SpecialFeature).rows@[i],
        forall|p2: i64, x: i64|
            #![trigger has_assoc(final(db).product_special_features.rows@, p2, x)]
            p2 != product_id ==> (has_assoc(final(db).product_special_features.rows@, p2, x)
                <==> has_assoc(old(db).product_special_features.rows@, p2, x)),
        r matches Err(e) ==> e == PersistError::Store(StoreError::Full),
        old(db).clock + feature_count(*features) + 1 <= u64::MAX && old(db).dim(
            DimensionKind::SpecialFeature,
        ).rows@.len() + feature_count(*features) <= i64::MAX ==> r is Ok,
        r is Ok ==> match *features {
            Some(fs) => assoc_matches_names(
                final(db).dim(DimensionKind::SpecialFeature),
                final(db).product_special_features.rows@,
                product_id,
                names_of(fs@),
            ),
            None => forall|x: i64| !has_assoc(final(db).product_special_features.rows@, product_id, x),
        },
{
    let ghost db0 = *db;
    let mut ids: Vec<i64> = Vec::new();
    match features {
        Some(fs) => {
            let m = fs.len();
            let mut j: usize = 0;
            while j < m
                invariant
                    db.wf(),
                    j <= m,
                    ids@.len() == j,
                    db.dims@.len() == 10,
                    Client::non_dims_unchanged(db0, *db),
                    forall|i: int| 0 <= i < 10 && i != 9 ==> db.dims@[i] == db0.dims@[i],
                    db0.clock <= db.clock <= db0.clock + j,
                    db0.dim(DimensionKind::SpecialFeature).rows@.len() <= db.dim(
                        DimensionKind::SpecialFeature,
                    ).rows@.len() <= db0.dim(DimensionKind::SpecialFeature).rows@.len() + j,
                    forall|i: int|
                        0 <= i < db0.dim(DimensionKind::SpecialFeature).rows@.len() ==> db.dim(
                            DimensionKind::SpecialFeature,
                        ).rows@[i] == db0.dim(DimensionKind::SpecialFeature).rows@[i],
                    forall|t: int|
                        0 <= t < j ==> 1 <= #[trigger] ids@[t] <= db.dim(
                            DimensionKind::SpecialFeature,
                        ).rows@.len() && db.dim(DimensionKind::SpecialFeature).rows@[ids@[t]
                            - 1].name@ == fs@[t]@,
                decreases m - j,
            {
                let id = match db.upsert_dimension(DimensionKind::SpecialFeature, fs[j].as_str()) {
                    Ok(id) => id,
                    Err(e) => {
                        return Err(PersistError::Store(e));
                    },
                };
                ids.push(id);
                j += 1;
            }
        },
        None => {},
    }
    let ghost sfids = ids@;
    let ghost before = db.product_special_features.rows@;
    let ghost clock0 = db.clock;
    match db.ensure_product_special_features(product_id, ids) {
        Ok(u) => {},
        Err(e) => {
            return Err(PersistError::Store(e));
        },
    }
    proof {
        lemma_reconcile_exact(before, product_id, with_no_pct(sfids), (clock0 + 1) as u64);
        lemma_reconcile_preserves_others(
            before,
            product_id,
            with_no_pct(sfids),
            (clock0 + 1) as u64,
        );
        assert(ids_of(with_no_pct(sfids)) =~= sfids);
        match features {
            Some(fs) => {
                let nm = names_of(fs@);
                assert(nm.len() == sfids.len());
                assert forall|t: int| 0 <= t < nm.len() implies has_named_assoc(
                    db.dim(DimensionKind::SpecialFeature),
                    db.product_special_features.rows@,
                    product_id,
                    nm[t],
                ) by {
                    let x = sfids[t];
                    assert(sfids.contains(x)) by {
                        assert(sfids[t] == x);
                    }
                    assert(has_assoc(db.product_special_features.rows@, product_id, x));
                    assert(db.dim(DimensionKind::SpecialFeature).rows@[x - 1].name@ == fs@[t]@);
                }
                assert forall|x: i64| has_assoc(
                    db.product_special_features.rows@,
                    product_id,
                    x,
                ) implies (1 <= x <= db.dim(DimensionKind::SpecialFeature).rows@.len() && (exists|
                    j2: int,
                |
                    0 <= j2 < nm.len() && db.dim(DimensionKind::SpecialFeature).rows@[x - 1].name@
                        == nm[j2])) by {
                    assert(sfids.contains(x));
                    let t = choose|t: int| 0 <= t < sfids.len() && sfids[t] == x;
                    assert(db.dim(DimensionKind::SpecialFeature).rows@[x - 1].name@ == nm[t]);
                }
            },
            None => {
                assert(sfids.len() == 0);
                assert forall|x: i64| !has_assoc(
                    db.product_special_features.rows@,
                    product_id,
                    x,
                ) by {
                    assert(!sfids.contains(x));
                }
            },
        }
    }
    Ok(())
}

/// Makes the grape-variety rows and associations of one product match
/// the extraction's variety list: each variety name is upserted into the
/// grape-varieties table and the association set is reconciled to
/// exactly those ids, each carrying its percentage. An absent list
/// empties the association set.
#[verifier::rlimit(100)]
#[verifier::loop_isolation(false)]
fn sync_grape_varieties(
    db: &mut Client,
    product_id: i64,
    varieties: &Option<Vec<GrapeVariety>>,
) -> (r: Result<(), PersistError>)
    requires
        old(db).wf(),
        1 <= product_id <= old(db).products.rows@.len(),
    ensures
        final(db).wf(),
        final(db).dims@.len() == 10,
        final(db).products == old(db).products,
        final(db).categories == old(db).categories,
        final(db).product_special_features == old(db).product_special_features,
        final(db).product_categories == old(db).product_categories,
        forall|i: int| 0 <= i < 10 && i != 5 ==> final(db).dims@[i] == old(db).dims@[i],
        old(db).clock <= final(db).clock <= old(db).clock + variety_count(*varieties) + 1,
        old(db).dim(DimensionKind::GrapeVariety).rows@.len() <= final(db).dim(
            DimensionKind::GrapeVariety,
        ).rows@.len() <= old(db).dim(DimensionKind::GrapeVariety).rows@.len() + variety_count(
            *varieties,
        ),
        forall|i: int|
            0 <= i < old(db).dim(DimensionKind::GrapeVariety).rows@.len() ==> final(db).dim(
                DimensionKind::GrapeVariety,
            ).rows@[i] == old(db).dim(DimensionKind::GrapeVariety).rows@[i],
        forall|p2: i64, x: i64|
            #![trigger has_assoc(final(db).product_grape_varieties.rows@, p2, x)]
            p2 != product_id ==> (has_assoc(final(db).product_grape_varieties.rows@, p2, x)
                <==> has_assoc(old(db).product_grape_varieties.rows@, p2, x)),
        r matches Err(e) ==> e == PersistError::Store(StoreError::Full),
        old(db).clock + variety_count(*varieties) + 1 <= u64::MAX && old(db).dim(
            DimensionKind::GrapeVariety,
        ).rows@.len() + variety_count(*varieties) <= i64::MAX ==> r is Ok,
        r is Ok ==> match *varieties {
            Some(gs) => assoc_matches_names(
                final(db).dim(DimensionKind::GrapeVariety),
                final(db).product_grape_varieties.rows@,
                product_id,
                variety_names(gs@),
            ),
            None => forall|x: i64| !has_assoc(final(db).product_grape_varieties.rows@, product_id, x),
        },
        r is Ok ==> match *varieties {
            Some(gs) => forall|j: int|
                0 <= j < gs@.len() && (forall|j2: int|
                    j < j2 < gs@.len() ==> (#[trigger] gs@[j2]).name@ != gs@[j].name@)
                    ==> has_named_assoc_pct(
                    final(db).dim(DimensionKind::GrapeVariety),
                    final(db).product_grape_varieties.rows@,
                    product_id,
                    (#[trigger] gs@[j]).name@,
                    gs@[j].percentage,
                ),
            None => true,
        },
{
    let ghost db0 = *db;
    let mut pairs: Vec<(i64, Option<u8>)> = Vec::new();
    match varieties {
        Some(gs) => {
            let m = gs.len();
            let mut j: usize = 0;
            while j < m
                invariant
                    db.wf(),
                    j <= m,
                    pairs@.len() == j,
                    db.dims@.len() == 10,
                    Client::non_dims_unchanged(db0, *db),
                    forall|i: int| 0 <= i < 10 && i != 5 ==> db.dims@[i] == db0.dims@[i],
                    db0.clock <= db.clock <= db0.clock + j,
                    db0.dim(DimensionKind::GrapeVariety).rows@.len() <= db.dim(
                        DimensionKind::GrapeVariety,
                    ).rows@.len() <= db0.dim(DimensionKind::GrapeVariety).rows@.len() + j,
                    forall|i: int|
                        0 <= i < db0.dim(DimensionKind::GrapeVariety).rows@.len() ==> db.dim(
                            DimensionKind::GrapeVariety,
                        ).rows@[i] == db0.dim(DimensionKind::GrapeVariety).rows@[i],
                    forall|t: int|
                        0 <= t < j ==> 1 <= (#[trigger] pairs@[t]).0 <= db.dim(
                            DimensionKind::GrapeVariety,
                        ).rows@.len() && db.dim(DimensionKind::GrapeVariety).rows@[pairs@[t].0
                            - 1].name@ == gs@[t].name@ && pairs@[t].1 == gs@[t].percentage,
                decreases m - j,
            {
                let g = &gs[j];
                let id = match db.upsert_dimension(DimensionKind::GrapeVariety, g.name.as_str()) {
                    Ok(id) => id,
                    Err(e) => {
                        return Err(PersistError::Store(e));
                    },
                };
                pairs.push((id, g.percentage));
                j += 1;
            }
        },
        None => {},
    }
    let ghost gvpairs = pairs@;
    let ghost before = db.product_grape_varieties.rows@;
    let ghost clock0 = db.clock;
    match db.ensure_product_grape_varieties(product_id, pairs) {
        Ok(u) => {},
        Err(e) => {
            return Err(PersistError::Store(e));
        },
    }
    proof {
        lemma_reconcile_exact(before, product_id, gvpairs, (clock0 + 1) as u64);
        lemma_reconcile_preserves_others(before, product_id, gvpairs, (clock0 + 1) as u64);
        match varieties {
            Some(gs) => {
                let nm = variety_names(gs@);
                assert(nm.len() == gvpairs.len());
                assert forall|j: int|
                    0 <= j < gs@.len() && (forall|j2: int|
                        j < j2 < gs@.len() ==> (#[trigger] gs@[j2]).name@ != gs@[j].name@)
                    implies has_named_assoc_pct(
                    db.dim(DimensionKind::GrapeVariety),
                    db.product_grape_varieties.rows@,
                    product_id,
                    gs@[j].name@,
                    gs@[j].percentage,
                ) by {
                    let x = gvpairs[j].0;
                    assert forall|j2: int| j < j2 < gvpairs.len() implies (
                    #[trigger] gvpairs[j2]).0 != x by {
                        if gvpairs[j2].0 == x {
                            assert(db.dim(DimensionKind::GrapeVariety).rows@[x - 1].name@
                                == gs@[j2].name@);
                            assert(db.dim(DimensionKind::GrapeVariety).rows@[x - 1].name@
                                == gs@[j].name@);
                        }
                    }
                    lemma_reconcile_last_pct(before, product_id, gvpairs, (clock0 + 1) as u64, j);
                    assert(has_assoc_pct(
                        db.product_grape_varieties.rows@,
                        product_id,
                        x,
                        gs@[j].percentage,
                    ));
                    assert(db.dim(DimensionKind::GrapeVariety).rows@[x - 1].name@ == gs@[j].name@);
                }
                assert forall|t: int| 0 <= t < nm.len() implies has_named_assoc(
                    db.dim(DimensionKind::GrapeVariety),
                    db.product_grape_varieties.rows@,
                    product_id,
                    nm[t],
                ) by {
                    let x = gvpairs[t].0;
                    assert(ids_of(gvpairs).contains(x)) by {
                        assert(ids_of(gvpairs)[t] == x);
                    }
                    assert(has_assoc(db.product_grape_varieties.rows@, product_id, x));
                    assert(db.dim(DimensionKind::GrapeVariety).rows@[x - 1].name@ == gs@[t].name@);
                }
                assert forall|x: i64| has_assoc(
                    db.product_grape_varieties.rows@,
                    product_id,
                    x,
                ) implies (1 <= x <= db.dim(DimensionKind::GrapeVariety).rows@.len() && (exists|
                    j2: int,
                |
                    0 <= j2 < nm.len() && db.dim(DimensionKind::GrapeVariety).rows@[x - 1].name@
                        == nm[j2])) by {
                    assert(ids_of(gvpairs).contains(x));
                    let t = choose|t: int| 0 <= t < ids_of(gvpairs).len() && ids_of(gvpairs)[t]
                        == x;
                    assert(gvpairs[t].0 == x);
                    assert(db.dim(DimensionKind::GrapeVariety).rows@[x - 1].name@ == nm[t]);
                }
            },
            None => {
                assert(gvpairs.len() == 0);
                assert forall|x: i64| !has_assoc(
                    db.product_grape_varieties.rows@,
                    product_id,
                    x,
                ) by {
                    assert(!ids_of(gvpairs).contains(x));
                }
            },
        }
    }
    Ok(())
}

/// Makes the category rows and associations of one product match the
/// page's breadcrumb chain: each extracted category is upserted in
/// parent-to-child order — each entry's parent is the entry before it —
/// and the association set is reconciled to exactly those ids.
#[verifier::rlimit(100)]
#[verifier::loop_isolation(false)]
fn sync_categories(db: &mut Client, product_id: i64, product: &ExtractedProduct) -> (r: Result<
    (),
    PersistError,
>)
    requires
        old(db).wf(),
        1 <= product_id <= old(db).products.rows@.len(),
    ensures
        final(db).wf(),
        final(db).dims@ == old(db).dims@,
        final(db).products == old(db).products,
        final(db).product_special_features == old(db).product_special_features,
        final(db).product_grape_varieties == old(db).product_grape_varieties,
        old(db).clock <= final(db).clock <= old(db).clock + category_count(*product) + 1,
        old(db).categories.rows@.len() <= final(db).categories.rows@.len() <= old(db).categories.rows@.len() + category_count(*product),
        forall|i: int|
            0 <= i < old(db).categories.rows@.len() ==> (
            #[trigger] final(db).categories.rows@[i]).name@ == old(db).categories.rows@[i].name@,
        forall|p2: i64, x: i64|
            #![trigger has_assoc(final(db).product_categories.rows@, p2, x)]
            p2 != product_id ==> (has_assoc(final(db).product_categories.rows@, p2, x)
                <==> has_assoc(old(db).product_categories.rows@, p2, x)),
        r matches Err(PersistError::Extract(e)) ==> e == ExtractError::MissingBreadcrumbs
            && first_breadcrumbs(product.linked_data@) is None,
        r matches Err(PersistError::Store(e)) ==> e == StoreError::Full,
        first_breadcrumbs(product.linked_data@) is Some && old(db).clock + category_count(*product)
            + 1 <= u64::MAX && old(db).categories.rows@.len() + category_count(*product)
            <= i64::MAX ==> r is Ok,
        r is Ok ==> first_breadcrumbs(product.linked_data@) is Some && cat_assoc_matches(
            final(db).categories,
            final(db).product_categories.rows@,
            product_id,
            spec_categories(first_breadcrumbs(product.linked_data@)->Some_0.item_list_element@),
        ),
        r is Ok ==> ({
            let chain = spec_categories(
                first_breadcrumbs(product.linked_data@)->Some_0.item_list_element@,
            );
            forall|j: int|
                #![trigger chain[j]]
                0 <= j < chain.len() && last_of_name(chain, j) ==> chain_entry_linked(
                    final(db).categories,
                    chain,
                    j,
                )
        }),
{
    let ghost db0 = *db;
    let categories = match product.extract_categories() {
        Ok(c) => c,
        Err(e) => {
            return Err(PersistError::Extract(e));
        },
    };
    let ghost chain = spec_categories(
        first_breadcrumbs(product.linked_data@)->Some_0.item_list_element@,
    );
    proof {
        assert(categories@.len() == chain.len());
    }
    let mut category_ids: Vec<i64> = Vec::new();
    let mc = categories.len();
    let mut j: usize = 0;
    while j < mc
        invariant
            db.wf(),
            j <= mc,
            mc == categories@.len(),
            categories@.len() == chain.len(),
            forall|t: int|
                0 <= t < chain.len() ==> ((#[trigger] categories@[t]).name@, categories@[t].url@)
                    == chain[t],
            category_ids@.len() == j,
            db.dims@ == db0.dims@,
            db.products == db0.products,
            db.product_special_features == db0.product_special_features,
            db.product_grape_varieties == db0.product_grape_varieties,
            db.product_categories == db0.product_categories,
            db0.clock <= db.clock <= db0.clock + j,
            db0.categories.rows@.len() <= db.categories.rows@.len() <= db0.categories.rows@.len()
                + j,
            forall|i: int|
                0 <= i < db0.categories.rows@.len() ==> (
                #[trigger] db.categories.rows@[i]).name@ == db0.categories.rows@[i].name@,
            forall|t: int|
                0 <= t < j ==> 1 <= #[trigger] category_ids@[t] <= db.categories.rows@.len()
                    && db.categories.rows@[category_ids@[t] - 1].name@ == (categories@[t]).name@,
            forall|t: int|
                #![trigger categories@[t]]
                0 <= t < j && (forall|t2: int|
                    t < t2 < j ==> (#[trigger] categories@[t2]).name@ != categories@[t].name@)
                    ==> db.categories.rows@[category_ids@[t] - 1].url@ == categories@[t].url@
                    && db.categories.rows@[category_ids@[t] - 1].parent_id == (if t == 0 {
                    None::<i64>
                } else {
                    Some(category_ids@[t - 1])
                }),
        decreases mc - j,
    {
        let parent: Option<i64> = if category_ids.len() > 0 {
            Some(category_ids[category_ids.len() - 1])
        } else {
            None
        };
        let c = &categories[j];
        let id = match db.upsert_category(c.name.as_str(), c.url.as_str(), parent) {
            Ok(id) => id,
            Err(e) => {
                proof {
                    assert(e == StoreError::Full);
                }
                return Err(PersistError::Store(e));
            },
        };
        category_ids.push(id);
        j += 1;
    }
    let ghost catids = category_ids@;
    let ghost before = db.product_categories.rows@;
    let ghost clock0 = db.clock;
    match db.ensure_product_categories(product_id, category_ids) {
        Ok(u) => {},
        Err(e) => {
            return Err(PersistError::Store(e));
        },
    }
    proof {
        lemma_reconcile_exact(before, product_id, with_no_pct(catids), (clock0 + 1) as u64);
        lemma_reconcile_preserves_others(before, product_id, with_no_pct(catids), (clock0 + 1) as u64);
        assert(ids_of(with_no_pct(catids)) =~= catids);
        assert(chain.len() == catids.len());
        assert forall|j: int|
            #![trigger chain[j]]
            0 <= j < chain.len() && last_of_name(chain, j) implies chain_entry_linked(
            db.categories,
            chain,
            j,
        ) by {
            assert(forall|t2: int|
                j < t2 < chain.len() ==> (#[trigger] categories@[t2]).name@
                    != categories@[j].name@);
            assert(db.categories.rows@[catids[j] - 1].url@ == categories@[j].url@);
            lemma_category_lookup(db.categories, catids[j] - 1);
            assert(db.categories.row_with(chain[j].0) == Some(
                db.categories.rows@[catids[j] - 1],
            ));
            if j > 0 {
                lemma_category_lookup(db.categories, catids[j - 1] - 1);
                assert(db.categories.row_with(chain[j - 1].0) == Some(
                    db.categories.rows@[catids[j - 1] - 1],
                ));
                assert(db.categories.rows@[catids[j - 1] - 1].id == catids[j - 1]);
            }
        }
        assert forall|t: int| 0 <= t < chain.len() implies has_named_cat_assoc(
            db.categories,
            db.product_categories.rows@,
            product_id,
            chain[t].0,
        ) by {
            let x = catids[t];
            assert(catids.contains(x)) by {
                assert(catids[t] == x);
            }
            assert(has_assoc(db.product_categories.rows@, product_id, x));
            assert(db.categories.rows@[x - 1].name@ == (categories@[t]).name@);
            assert((categories@[t]).name@ == chain[t].0);
        }
        assert forall|x: i64| has_assoc(db.product_categories.rows@, product_id, x) implies (1 <= x
            <= db.categories.rows@.len() && (exists|j2: int|
            0 <= j2 < chain.len() && db.categories.rows@[x - 1].name@ == (
            #[trigger] chain[j2]).0)) by {
            assert(catids.contains(x));
            let t = choose|t: int| 0 <= t < catids.len() && catids[t] == x;
            assert(db.categories.rows@[x - 1].name@ == chain[t].0);
        }
    }
    Ok(())
}

/// The most clock ticks persisting one product can take: one per
/// dimension and product upsert, one per reconciliation, and one per
/// listed feature, variety and chain entry. No table grows by more rows
/// than this either.
pub open spec fn persist_budget(product: ExtractedProduct) -> int {
    12 + feature_count(product.detailed_info.special_features) + variety_count(
        product.detailed_info.grape_varieties,
    ) + category_count(product)
}

/// Whether the store can take every write persisting this product may
/// need: its clock, its id spaces and its tables all have room for the
/// product's write budget.
pub open spec fn store_has_room(c: Client, product: ExtractedProduct) -> bool {
    &&& c.clock + persist_budget(product) <= u64::MAX
    &&& forall|k: int|
        0 <= k < 10 ==> (#[trigger] c.dims@[k]).rows@.len() + persist_budget(product) <= i64::MAX
    &&& c.products.rows@.len() + 1 <= i64::MAX
    &&& c.categories.rows@.len() + persist_budget(product) <= i64::MAX
}

/// Orchestrates the persistence of one extracted product: resolves every
/// named attribute to a dimension row, upserts the product aggregate row,
/// and reconciles the three association sets to exactly what the
/// extraction lists. Each reconciliation is all-or-nothing on its own;
/// the operation as a whole is not one transaction — writes committed
/// before a later failure stay (the frame clauses below hold on every
/// outcome), and are idempotently re-touched on the next crawl of the
/// same product. When the extraction carries its product entry and its
/// breadcrumb list and the store has room, the call is guaranteed to
/// succeed.
#[verifier::rlimit(100)]
pub fn persist_product(db: &mut Client, product: &ExtractedProduct) -> (r: Result<
    (),
    PersistError,
>)
    requires
        old(db).wf(),
    ensures
        final(db).wf(),
        final(db).dims@.len() == 10,
        forall|k: int|
            0 <= k < 10 ==> (#[trigger] final(db).dims@[k]).rows@.len() >= old(db).dims@[k].rows@.len(),
        forall|k: int, i: int|
            0 <= k < 10 && 0 <= i < old(db).dims@[k].rows@.len() ==> #[trigger] final(db).dims@[k].rows@[i] == old(db).dims@[k].rows@[i],
        final(db).categories.rows@.len() >= old(db).categories.rows@.len(),
        forall|i: int|
            0 <= i < old(db).categories.rows@.len() ==> (
            #[trigger] final(db).categories.rows@[i]).name@ == old(db).categories.rows@[i].name@,
        final(db).products.rows@.len() >= old(db).products.rows@.len(),
        forall|i: int|
            0 <= i < old(db).products.rows@.len() && (
            #[trigger] old(db).products.rows@[i]).fields.saq_code@
                != product.detailed_info.saq_code@ ==> final(db).products.rows@[i] == old(db).products.rows@[i],
        forall|p2: i64, x: i64|
            #![trigger has_assoc(final(db).product_special_features.rows@, p2, x)]
            (final(db).products.row_with(product.detailed_info.saq_code@) matches Some(row) ==> p2
                != row.id) ==> (has_assoc(final(db).product_special_features.rows@, p2, x)
                <==> has_assoc(old(db).product_special_features.rows@, p2, x)),
        forall|p2: i64, x: i64|
            #![trigger has_assoc(final(db).product_grape_varieties.rows@, p2, x)]
            (final(db).products.row_with(product.detailed_info.saq_code@) matches Some(row) ==> p2
                != row.id) ==> (has_assoc(final(db).product_grape_varieties.rows@, p2, x)
                <==> has_assoc(old(db).product_grape_varieties.rows@, p2, x)),
        forall|p2: i64, x: i64|
            #![trigger has_assoc(final(db).product_categories.rows@, p2, x)]
            (final(db).products.row_with(product.detailed_info.saq_code@) matches Some(row) ==> p2
                != row.id) ==> (has_assoc(final(db).product_categories.rows@, p2, x)
                <==> has_assoc(old(db).product_categories.rows@, p2, x)),
        r matches Err(PersistError::Extract(e)) ==> (e == ExtractError::MissingProduct
            && first_ld_product(product.linked_data@) is None) || (e
            == ExtractError::MissingBreadcrumbs && first_breadcrumbs(product.linked_data@)
            is None),
        r matches Err(PersistError::Store(e)) ==> e == StoreError::Full,
        first_ld_product(product.linked_data@) is Some && first_breadcrumbs(product.linked_data@)
            is Some && store_has_room(*old(db), *product) ==> r is Ok,
        r is Ok ==> first_ld_product(product.linked_data@) is Some && first_breadcrumbs(
            product.linked_data@,
        ) is Some,
        r is Ok ==> final(db).products.row_with(product.detailed_info.saq_code@) is Some,
        r is Ok ==> ({
            let di = product.detailed_info;
            let ld = first_ld_product(product.linked_data@)->Some_0;
            let row = final(db).products.row_with(di.saq_code@)->Some_0;
            &&& row.fields.saq_code@ == di.saq_code@
            &&& row.fields.name@ == ld.name@
            &&& row.fields.description@ == ld.description@
            &&& row.fields.image_url@ == ld.image@
            &&& row.fields.availability@ == ld.offers.availability.db_repr()
            &&& row.fields.item_condition@ == ld.offers.item_condition.db_repr()
            &&& row.fields.price_cad == ld.offers.price
            &&& row.fields.abv_percentage == di.abv_percentage
            &&& (match di.size {
                Some(s) => row.fields.container_count == Some(s.container_count)
                    && row.fields.container_milliliters == Some(s.container_milliliters),
                None => row.fields.container_count is None && row.fields.container_milliliters
                    is None,
            })
            &&& (match di.product_of_quebec {
                Some(q) => row.fields.product_of_quebec matches Some(s) && s@ == q.db_repr(),
                None => row.fields.product_of_quebec is None,
            })
            &&& (match di.sugar_content {
                Some(sc) => (row.fields.sugar_content_equality matches Some(s) && s@
                    == sc.equality.db_repr()) && row.fields.sugar_content_grams_per_liter == Some(
                    sc.grams_per_liter,
                ),
                None => row.fields.sugar_content_equality is None
                    && row.fields.sugar_content_grams_per_liter is None,
            })
            &&& (match di.upc_code {
                Some(u) => row.fields.upc_code matches Some(s) && s@ == u@,
                None => row.fields.upc_code is None,
            })
            &&& dim_ref_matches(
                final(db).dim(DimensionKind::Producer),
                row.fields.producer_id,
                di.producer,
            )
            &&& dim_ref_matches(
                final(db).dim(DimensionKind::PromotingAgent),
                row.fields.promoting_agent_id,
                di.promoting_agent,
            )
            &&& dim_ref_matches(final(db).dim(DimensionKind::Color), row.fields.color_id, di.color)
            &&& dim_ref_matches(
                final(db).dim(DimensionKind::Region),
                row.fields.region_id,
                di.region,
            )
            &&& dim_ref_matches(
                final(db).dim(DimensionKind::Country),
                row.fields.country_id,
                di.country,
            )
            &&& dim_ref_matches(
                final(db).dim(DimensionKind::RegulatedDesignation),
                row.fields.regulated_designation_id,
                di.regulated_designation,
            )
            &&& dim_ref_matches(
                final(db).dim(DimensionKind::DesignationOfOrigin),
                row.fields.designation_of_origin_id,
                di.designation_of_origin,
            )
            &&& dim_ref_matches(
                final(db).dim(DimensionKind::Classification),
                row.fields.classification_id,
                di.classification,
            )
        }),
        r is Ok ==> ({
            let di = product.detailed_info;
            let pid = final(db).products.row_with(di.saq_code@)->Some_0.id;
            &&& (match di.special_features {
                Some(fs) => assoc_matches_names(
                    final(db).dim(DimensionKind::SpecialFeature),
                    final(db).product_special_features.rows@,
                    pid,
                    names_of(fs@),
                ),
                None => forall|x: i64|
                    !has_assoc(final(db).product_special_features.rows@, pid, x),
            })
            &&& (match di.grape_varieties {
                Some(gs) => assoc_matches_names(
                    final(db).dim(DimensionKind::GrapeVariety),
                    final(db).product_grape_varieties.rows@,
                    pid,
                    variety_names(gs@),
                ),
                None => forall|x: i64| !has_assoc(final(db).product_grape_varieties.rows@, pid, x),
            })
            &&& cat_assoc_matches(
                final(db).categories,
                final(db).product_categories.rows@,
                pid,
                spec_categories(first_breadcrumbs(product.linked_data@)->Some_0.item_list_element@),
            )
            &&& (match di.grape_varieties {
                Some(gs) => forall|j: int|
                    0 <= j < gs@.len() && (forall|j2: int|
                        j < j2 < gs@.len() ==> (#[trigger] gs@[j2]).name@ != gs@[j].name@)
                        ==> has_named_assoc_pct(
                        final(db).dim(DimensionKind::GrapeVariety),
                        final(db).product_grape_varieties.rows@,
                        pid,
                        (#[trigger] gs@[j]).name@,
                        gs@[j].percentage,
                    ),
                None => true,
            })
            &&& ({
                let chain = spec_categories(
                    first_breadcrumbs(product.linked_data@)->Some_0.item_list_element@,
                );
                forall|j: int|
                    #![trigger chain[j]]
                    0 <= j < chain.len() && last_of_name(chain, j) ==> chain_entry_linked(
                        final(db).categories,
                        chain,
                        j,
                    )
            })
        }),
{
    let product_id = match upsert_aggregate_row(db, product) {
        Ok(pid) => pid,
        Err(e) => {
            return Err(e);
        },
    };
    if let Err(e) = sync_special_features(db, product_id, &product.detailed_info.special_features)
    {
        return Err(e);
    }
    if let Err(e) = sync_grape_varieties(db, product_id, &product.detailed_info.grape_varieties) {
        return Err(e);
    }
    if let Err(e) = sync_categories(db, product_id, product) {
        return Err(e);
    }
    Ok(())
}

/// The first error in a list of worker results, or success.
pub open spec fn spec_first_err<E>(ws: Seq<Result<(), E>>) -> Result<(), E>
    decreases ws.len(),
{
    if ws.len() == 0 {
        Ok(())
    } else if ws[0] is Err {
        Err(ws[0]->Err_0)
    } else {
        spec_first_err(ws.drop_first())
    }
}

/// The crawl's overall outcome: the producer's error if it failed,
/// otherwise the first worker error, otherwise success. A successful
/// crawl requires the producer and every worker to have finished well.
pub fn crawl_outcome<E>(producer: Result<(), E>, workers: Vec<Result<(), E>>) -> (r: Result<
    (),
    E,
>)
    ensures
        match producer {
            Err(e) => r matches Err(e2) && e2 == e,
            Ok(u) => r == spec_first_err(workers@),
        },
{
    match producer {
        Err(e) => {
            return Err(e);
        },
        Ok(()) => {},
    }
    let mut rest = workers;
    let ghost orig = rest@;
    while rest.len() > 0
        invariant
            producer is Ok,
            orig == workers@,
            spec_first_err(orig) == spec_first_err(rest@),
        decreases rest@.len(),
    {
        let ghost before = rest@;
        let w = rest.remove(0);
        proof {
            assert(before.drop_first() =~= rest@);
        }
        match w {
            Err(e) => {
                return Err(e);
            },
            Ok(()) => {},
        }
    }
    Ok(())
}

} // verus!
