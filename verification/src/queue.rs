//! The download queue.
//!
//! Nexus hands out a download URL that is valid only briefly, so the URL is
//! resolved at the moment a transfer starts rather than when it is queued. A
//! collection queued forty mods deep would otherwise find every link stale by
//! the time it reached the end.
//!
//! The queue owns no I/O of its own: it holds the items and decides what
//! happens to them; whoever drives it performs the transfers and reports back.

use vstd::prelude::*;

use crate::client::{error_message, NexusError};
use crate::model::opt_view;
use crate::ratelimit::{backoff, backoff_of};
use crate::text::{chars_of, concat_chars, string_from_chars};
use crate::upscaler::{decimal, decimal_exec};

verus! {

#[derive(Debug, Clone, Copy, PartialEq, Eq, Structural)]
pub enum DownloadState {
    Queued,
    Running,
    /// Downloaded and handed to the installer.
    Done,
    Failed,
    Cancelled,
    /// A free account has to fetch this one through the website. The item
    /// waits for an `nxm://` link.
    NeedsUserAction,
}

/// Still waiting for something to happen.
pub open spec fn is_open(s: DownloadState) -> bool {
    s == DownloadState::Queued || s == DownloadState::Running || s == DownloadState::NeedsUserAction
}

pub fn is_open_exec(s: DownloadState) -> (r: bool)
    ensures
        r == is_open(s),
{
    s == DownloadState::Queued || s == DownloadState::Running || s == DownloadState::NeedsUserAction
}

/// The name a state is saved under.
pub open spec fn state_name(s: DownloadState) -> Seq<char> {
    match s {
        DownloadState::Queued => "queued"@,
        DownloadState::Running => "running"@,
        DownloadState::Done => "done"@,
        DownloadState::Failed => "failed"@,
        DownloadState::Cancelled => "cancelled"@,
        DownloadState::NeedsUserAction => "needsUserAction"@,
    }
}

impl DownloadState {
    /// The name a state is saved under.
    pub fn as_str(self) -> (r: &'static str)
        ensures
            r@ == state_name(self),
    {
        match self {
            DownloadState::Queued => "queued",
            DownloadState::Running => "running",
            DownloadState::Done => "done",
            DownloadState::Failed => "failed",
            DownloadState::Cancelled => "cancelled",
            DownloadState::NeedsUserAction => "needsUserAction",
        }
    }

    /// The state a saved name stands for; nothing for a name no state has.
    pub fn from_str_id(name: &str) -> (r: Option<DownloadState>)
        ensures
            match r {
                Some(s) => state_name(s) == name@,
                None => forall|s: DownloadState| state_name(s) != name@,
            },
    {
        let all = [
            DownloadState::Queued,
            DownloadState::Running,
            DownloadState::Done,
            DownloadState::Failed,
            DownloadState::Cancelled,
            DownloadState::NeedsUserAction,
        ];
        let n = crate::text::chars_of(name);
        let mut i: usize = 0;
        while i < 6
            invariant
                i <= 6,
                n@ == name@,
                all@ == seq![
                    DownloadState::Queued,
                    DownloadState::Running,
                    DownloadState::Done,
                    DownloadState::Failed,
                    DownloadState::Cancelled,
                    DownloadState::NeedsUserAction,
                ],
                forall|k: int| 0 <= k < i ==> state_name(#[trigger] all@[k]) != name@,
            decreases 6 - i,
        {
            if crate::text::chars_eq(crate::text::chars_of(all[i].as_str()).as_slice(), n.as_slice()) {
                return Some(all[i]);
            }
            i = i + 1;
        }
        proof {
            assert forall|s: DownloadState| state_name(s) != name@ by {
                match s {
                    DownloadState::Queued => assert(all@[0] == s),
                    DownloadState::Running => assert(all@[1] == s),
                    DownloadState::Done => assert(all@[2] == s),
                    DownloadState::Failed => assert(all@[3] == s),
                    DownloadState::Cancelled => assert(all@[4] == s),
                    DownloadState::NeedsUserAction => assert(all@[5] == s),
                }
            }
        }
        None
    }
}

#[derive(Debug, Clone)]
pub struct QueueItem {
    pub id: u64,
    pub mod_id: u64,
    pub file_id: u64,
    /// What to call it in the UI.
    pub name: String,
    /// What to call it on disk.
    pub file_name: String,
    /// The file's version, when the API could be asked.
    pub version: Option<String>,
    pub state: DownloadState,
    pub bytes_done: u64,
    pub bytes_total: Option<u64>,
    pub error: Option<String>,
    /// Which collection queued it, when one did.
    pub collection: Option<String>,
    credentials: Option<(String, u64)>,
    attempts: u32,
}

pub struct ItemModel {
    pub id: u64,
    pub mod_id: u64,
    pub file_id: u64,
    pub name: Seq<char>,
    pub file_name: Seq<char>,
    pub version: Option<Seq<char>>,
    pub state: DownloadState,
    pub bytes_done: u64,
    pub bytes_total: Option<u64>,
    pub error: Option<Seq<char>>,
    pub collection: Option<Seq<char>>,
    pub credentials: Option<(Seq<char>, u64)>,
    pub attempts: u32,
}

pub open spec fn cred_view(c: Option<(String, u64)>) -> Option<(Seq<char>, u64)> {
    match c {
        Some(p) => Some((p.0@, p.1)),
        None => None,
    }
}

impl View for QueueItem {
    type V = ItemModel;

    closed spec fn view(&self) -> ItemModel {
        ItemModel {
            id: self.id,
            mod_id: self.mod_id,
            file_id: self.file_id,
            name: self.name@,
            file_name: self.file_name@,
            version: opt_view(self.version),
            state: self.state,
            bytes_done: self.bytes_done,
            bytes_total: self.bytes_total,
            error: opt_view(self.error),
            collection: opt_view(self.collection),
            credentials: cred_view(self.credentials),
            attempts: self.attempts,
        }
    }
}

pub open spec fn item_views(v: Seq<QueueItem>) -> Seq<ItemModel> {
    v.map_values(|i: QueueItem| i@)
}

fn copy_opt_cred(c: &Option<(String, u64)>) -> (r: Option<(String, u64)>)
    ensures
        cred_view(r) == cred_view(*c),
{
    match c {
        Some((k, e)) => Some((k.clone(), *e)),
        None => None,
    }
}

impl QueueItem {
    pub fn new(mod_id: u64, file_id: u64, name: &str, file_name: &str) -> (r: QueueItem)
        ensures
            r@ == (ItemModel {
                id: 0,
                mod_id,
                file_id,
                name: name@,
                file_name: file_name@,
                version: None,
                state: DownloadState::Queued,
                bytes_done: 0,
                bytes_total: None,
                error: None,
                collection: None,
                credentials: None,
                attempts: 0,
            }),
    {
        QueueItem {
            id: 0,
            mod_id,
            file_id,
            name: crate::text::owned(name),
            file_name: crate::text::owned(file_name),
            version: None,
            state: DownloadState::Queued,
            bytes_done: 0,
            bytes_total: None,
            error: None,
            collection: None,
            credentials: None,
            attempts: 0,
        }
    }

    /// Attach the short-lived credentials from an `nxm://` link.
    pub fn with_credentials(self, key: &str, expires: u64) -> (r: QueueItem)
        ensures
            r@ == (ItemModel { credentials: Some((key@, expires)), ..self@ }),
    {
        let mut s = self;
        s.credentials = Some((crate::text::owned(key), expires));
        s
    }

    pub fn with_version(self, version: Option<String>) -> (r: QueueItem)
        ensures
            r@ == (ItemModel { version: opt_view(version), ..self@ }),
    {
        let mut s = self;
        s.version = version;
        s
    }

    pub fn in_collection(self, slug: &str) -> (r: QueueItem)
        ensures
            r@ == (ItemModel { collection: Some(slug@), ..self@ }),
    {
        let mut s = self;
        s.collection = Some(crate::text::owned(slug));
        s
    }

    /// An item as a previous run saved it. Credentials are never saved, and
    /// the byte count starts over from what is on disk; an item that was
    /// mid-transfer when the manager closed is queued again, so its partial
    /// file is resumed.
    pub fn restored(
        id: u64,
        mod_id: u64,
        file_id: u64,
        name: String,
        file_name: String,
        version: Option<String>,
        state: DownloadState,
        bytes_total: Option<u64>,
        error: Option<String>,
        collection: Option<String>,
    ) -> (r: QueueItem)
        ensures
            r@ == (ItemModel {
                id,
                mod_id,
                file_id,
                name: name@,
                file_name: file_name@,
                version: opt_view(version),
                state: if state == DownloadState::Running {
                    DownloadState::Queued
                } else {
                    state
                },
                bytes_done: 0,
                bytes_total,
                error: opt_view(error),
                collection: opt_view(collection),
                credentials: None,
                attempts: 0,
            }),
    {
        let state = match state {
            DownloadState::Running => DownloadState::Queued,
            other => other,
        };
        QueueItem {
            id,
            mod_id,
            file_id,
            name,
            file_name,
            version,
            state,
            bytes_done: 0,
            bytes_total,
            error,
            collection,
            credentials: None,
            attempts: 0,
        }
    }

    pub fn has_credentials(&self) -> (r: bool)
        ensures
            r == self@.credentials is Some,
    {
        self.credentials.is_some()
    }

    /// The `nxm://` credentials, for the download-link request.
    pub fn credentials(&self) -> (r: Option<(String, u64)>)
        ensures
            cred_view(r) == self@.credentials,
    {
        copy_opt_cred(&self.credentials)
    }

    /// How many transfer attempts have failed so far.
    pub fn attempts(&self) -> (r: u32)
        ensures
            r == self@.attempts,
    {
        self.attempts
    }

    /// An independent copy.
    pub fn copy(&self) -> (r: QueueItem)
        ensures
            r@ == self@,
    {
        QueueItem {
            id: self.id,
            mod_id: self.mod_id,
            file_id: self.file_id,
            name: self.name.clone(),
            file_name: self.file_name.clone(),
            version: crate::model::copy_opt(&self.version),
            state: self.state,
            bytes_done: self.bytes_done,
            bytes_total: self.bytes_total,
            error: crate::model::copy_opt(&self.error),
            collection: crate::model::copy_opt(&self.collection),
            credentials: copy_opt_cred(&self.credentials),
            attempts: self.attempts,
        }
    }
}

/// How many times a transient failure is retried before giving up.
pub const MAX_ATTEMPTS: u32 = 4;

/// The queue: its items, the ids asked to stop, and the next id to hand out.
pub struct Queue {
    items: Vec<QueueItem>,
    cancelled: Vec<u64>,
    next_id: u64,
    domain: String,
}

pub struct QueueModel {
    pub items: Seq<ItemModel>,
    pub cancelled: Seq<u64>,
    pub next_id: u64,
    pub domain: Seq<char>,
}

impl View for Queue {
    type V = QueueModel;

    closed spec fn view(&self) -> QueueModel {
        QueueModel {
            items: item_views(self.items@),
            cancelled: self.cancelled@,
            next_id: self.next_id,
            domain: self.domain@,
        }
    }
}

/// The first open item for a mod file.
pub open spec fn find_open(items: Seq<ItemModel>, mod_id: u64, file_id: u64) -> Option<int>
    decreases items.len(),
{
    if items.len() == 0 {
        None
    } else {
        match find_open(items.drop_last(), mod_id, file_id) {
            Some(k) => Some(k),
            None => {
                let last = items.last();
                if last.mod_id == mod_id && last.file_id == file_id && is_open(last.state) {
                    Some(items.len() - 1)
                } else {
                    None
                }
            },
        }
    }
}

/// The first item with an id.
pub open spec fn find_id(items: Seq<ItemModel>, id: u64) -> Option<int>
    decreases items.len(),
{
    if items.len() == 0 {
        None
    } else {
        match find_id(items.drop_last(), id) {
            Some(k) => Some(k),
            None => if items.last().id == id {
                Some(items.len() - 1)
            } else {
                None
            },
        }
    }
}

/// The first queued item.
pub open spec fn find_queued(items: Seq<ItemModel>) -> Option<int>
    decreases items.len(),
{
    if items.len() == 0 {
        None
    } else {
        match find_queued(items.drop_last()) {
            Some(k) => Some(k),
            None => if items.last().state == DownloadState::Queued {
                Some(items.len() - 1)
            } else {
                None
            },
        }
    }
}

/// The id after `n`, wrapping as a 64-bit counter does.
pub open spec fn next_after(n: u64) -> u64 {
    if n == 0xffff_ffff_ffff_ffff {
        0
    } else {
        (n + 1) as u64
    }
}

/// The largest id among the items (of a non-empty list).
pub open spec fn max_id(items: Seq<ItemModel>) -> u64
    decreases items.len(),
{
    if items.len() <= 1 {
        if items.len() == 1 { items[0].id } else { 0 }
    } else {
        let m = max_id(items.drop_last());
        if items.last().id > m { items.last().id } else { m }
    }
}

/// What `push` does: top up the open item for the same file with fresh
/// credentials, or append the new item under the next id.
pub open spec fn pushed(q: QueueModel, item: ItemModel) -> (QueueModel, u64) {
    match find_open(q.items, item.mod_id, item.file_id) {
        Some(k) => {
            let e = q.items[k];
            let items = if item.credentials is Some {
                q.items.update(
                    k,
                    ItemModel {
                        credentials: item.credentials,
                        state: DownloadState::Queued,
                        error: None,
                        attempts: 0,
                        ..e
                    },
                )
            } else {
                q.items
            };
            (QueueModel { items, ..q }, e.id)
        },
        None => (
            QueueModel {
                items: q.items.push(ItemModel { id: q.next_id, ..item }),
                next_id: next_after(q.next_id),
                ..q
            },
            q.next_id,
        ),
    }
}

/// Apply a change to the first item with an id.
pub open spec fn with_item(q: QueueModel, id: u64, f: spec_fn(ItemModel) -> ItemModel) -> QueueModel {
    match find_id(q.items, id) {
        Some(k) => QueueModel { items: q.items.update(k, f(q.items[k])), ..q },
        None => q,
    }
}

pub open spec fn cancel_fn() -> spec_fn(ItemModel) -> ItemModel {
    |i: ItemModel| if is_open(i.state) {
        ItemModel { state: DownloadState::Cancelled, ..i }
    } else {
        i
    }
}

pub open spec fn open_filter() -> spec_fn(ItemModel) -> bool {
    |i: ItemModel| is_open(i.state)
}

pub open spec fn state_fn(s: DownloadState) -> spec_fn(ItemModel) -> ItemModel {
    |i: ItemModel| ItemModel { state: s, ..i }
}

pub open spec fn waiting_fn() -> spec_fn(ItemModel) -> ItemModel {
    |i: ItemModel| ItemModel { state: DownloadState::NeedsUserAction, error: None, ..i }
}

pub open spec fn failed_fn(reason: Seq<char>) -> spec_fn(ItemModel) -> ItemModel {
    |i: ItemModel| ItemModel { state: DownloadState::Failed, error: Some(reason), ..i }
}

pub open spec fn progress_fn(done: u64, total: Option<u64>) -> spec_fn(ItemModel) -> ItemModel {
    |i: ItemModel| ItemModel { bytes_done: done, bytes_total: total, ..i }
}

pub open spec fn attempts_fn(n: u32) -> spec_fn(ItemModel) -> ItemModel {
    |i: ItemModel| ItemModel { attempts: n, ..i }
}

impl Queue {
    pub fn new(domain: &str) -> (r: Queue)
        ensures
            r@.items.len() == 0,
            r@.cancelled.len() == 0,
            r@.next_id == 1,
            r@.domain == domain@,
    {
        Queue { items: Vec::new(), cancelled: Vec::new(), next_id: 1, domain: crate::text::owned(domain) }
    }

    /// The index of the first open item for a mod file.
    fn find_open_exec(&self, mod_id: u64, file_id: u64) -> (r: Option<usize>)
        ensures
            match r {
                Some(k) => find_open(self@.items, mod_id, file_id) == Some(k as int) && k < self@.items.len(),
                None => find_open(self@.items, mod_id, file_id) is None,
            },
    {
        let ghost iv = item_views(self.items@);
        let mut i: usize = 0;
        while i < self.items.len()
            invariant
                i <= self.items.len(),
                iv == item_views(self.items@),
                iv == self@.items,
                find_open(iv.subrange(0, i as int), mod_id, file_id) is None,
            decreases self.items.len() - i,
        {
            let ghost t = iv.subrange(0, i + 1);
            assert(t.drop_last() =~= iv.subrange(0, i as int));
            assert(t.last() == self.items@[i as int]@);
            let it = &self.items[i];
            if it.mod_id == mod_id && it.file_id == file_id && is_open_exec(it.state) {
                proof {
                    lemma_find_open_prefix(iv, i as int + 1, mod_id, file_id);
                }
                return Some(i);
            }
            i = i + 1;
        }
        assert(iv.subrange(0, self.items.len() as int) =~= iv);
        None
    }

    /// The index of the first item with an id.
    fn find_id_exec(&self, id: u64) -> (r: Option<usize>)
        ensures
            match r {
                Some(k) => find_id(self@.items, id) == Some(k as int) && k < self@.items.len(),
                None => find_id(self@.items, id) is None,
            },
    {
        let ghost iv = item_views(self.items@);
        let mut i: usize = 0;
        while i < self.items.len()
            invariant
                i <= self.items.len(),
                iv == item_views(self.items@),
                iv == self@.items,
                find_id(iv.subrange(0, i as int), id) is None,
            decreases self.items.len() - i,
        {
            let ghost t = iv.subrange(0, i + 1);
            assert(t.drop_last() =~= iv.subrange(0, i as int));
            assert(t.last() == self.items@[i as int]@);
            if self.items[i].id == id {
                proof {
                    lemma_find_id_prefix(iv, i as int + 1, id);
                }
                return Some(i);
            }
            i = i + 1;
        }
        assert(iv.subrange(0, self.items.len() as int) =~= iv);
        None
    }

    /// Add an item, or top up an existing one with fresh credentials.
    ///
    /// A user clicking Mod Manager Download for something already waiting
    /// should resume that item rather than queue a duplicate.
    pub fn push(&mut self, item: QueueItem) -> (r: u64)
        ensures
            (final(self)@, r) == pushed(old(self)@, item@),
    {
        match self.find_open_exec(item.mod_id, item.file_id) {
            Some(k) => {
                let id = self.items[k].id;
                if item.credentials.is_some() {
                    let mut e = self.items[k].copy();
                    e.credentials = item.credentials;
                    e.state = DownloadState::Queued;
                    e.error = None;
                    e.attempts = 0;
                    let ghost before = self.items@;
                    self.items.set(k, e);
                    assert(item_views(self.items@) =~= item_views(before).update(k as int, e@));
                }
                id
            },
            None => {
                let id = self.next_id;
                let mut item = item;
                item.id = id;
                let ghost before = self.items@;
                let ghost iv = item@;
                self.items.push(item);
                assert(item_views(self.items@) =~= item_views(before).push(iv));
                self.next_id = if self.next_id == 0xffff_ffff_ffff_ffff {
                    0
                } else {
                    self.next_id + 1
                };
                id
            },
        }
    }

    /// A copy of every item, in queue order.
    pub fn items(&self) -> (r: Vec<QueueItem>)
        ensures
            item_views(r@) == self@.items,
    {
        let mut out: Vec<QueueItem> = Vec::new();
        let mut i: usize = 0;
        while i < self.items.len()
            invariant
                i <= self.items.len(),
                item_views(out@) =~= item_views(self.items@).subrange(0, i as int),
            decreases self.items.len() - i,
        {
            let c = self.items[i].copy();
            let ghost b = item_views(out@);
            out.push(c);
            assert(item_views(out@) =~= b.push(c@));
            assert(item_views(self.items@).subrange(0, i + 1) =~= item_views(self.items@).subrange(0, i as int).push(self.items@[i as int]@));
            i = i + 1;
        }
        out
    }

    /// Take over the items a previous run saved, in their order. Ids handed
    /// out from now on come after the largest restored one, so a restored
    /// item and a new one never share an id.
    pub fn restore(&mut self, items: Vec<QueueItem>)
        ensures
            final(self)@.items == item_views(items@),
            final(self)@.cancelled.len() == 0,
            final(self)@.domain == old(self)@.domain,
            final(self)@.next_id == if items@.len() == 0 {
                1
            } else {
                next_after(max_id(item_views(items@)))
            },
    {
        let mut top: u64 = 0;
        let mut i: usize = 0;
        while i < items.len()
            invariant
                i <= items.len(),
                top == if i == 0 { 0 } else { max_id(item_views(items@).take(i as int)) },
            decreases items.len() - i,
        {
            assert(item_views(items@).take(i + 1).drop_last() =~= item_views(items@).take(i as int));
            if items[i].id > top || i == 0 {
                top = items[i].id;
            }
            i = i + 1;
        }
        assert(item_views(items@).take(items.len() as int) =~= item_views(items@));
        self.next_id = if items.len() == 0 {
            1
        } else if top == 0xffff_ffff_ffff_ffff {
            0
        } else {
            top + 1
        };
        self.items = items;
        self.cancelled = Vec::new();
    }

    /// Apply `f` to the item with this id.
    fn update_with(&mut self, id: u64, f: Ghost<spec_fn(ItemModel) -> ItemModel>, e: QueueItem, k: usize)
        requires
            find_id(old(self)@.items, id) == Some(k as int),
            k < old(self)@.items.len(),
            e@ == f@(old(self)@.items[k as int]),
        ensures
            final(self)@ == with_item(old(self)@, id, f@),
    {
        let ghost before = self.items@;
        self.items.set(k, e);
        assert(item_views(self.items@) =~= item_views(before).update(k as int, e@));
    }

    /// Stop an item: a transfer checks for this between attempts, and an
    /// item that has not finished is marked cancelled at once.
    pub fn cancel(&mut self, id: u64)
        ensures
            final(self)@ == (QueueModel { cancelled: old(self)@.cancelled.push(id), ..with_item(old(self)@, id, cancel_fn()) }),
    {
        self.cancelled.push(id);
        match self.find_id_exec(id) {
            Some(k) => {
                let mut e = self.items[k].copy();
                if is_open_exec(e.state) {
                    e.state = DownloadState::Cancelled;
                }
                self.update_with(id, Ghost(cancel_fn()), e, k);
            },
            None => {},
        }
    }

    /// Whether an item was asked to stop.
    pub fn is_cancelled(&self, id: u64) -> (r: bool)
        ensures
            r == self@.cancelled.contains(id),
    {
        let mut i: usize = 0;
        while i < self.cancelled.len()
            invariant
                i <= self.cancelled.len(),
                forall|k: int| 0 <= k < i ==> self.cancelled@[k] != id,
            decreases self.cancelled.len() - i,
        {
            if self.cancelled[i] == id {
                assert(self@.cancelled[i as int] == id);
                return true;
            }
            i = i + 1;
        }
        false
    }

    /// Forget everything that has finished one way or another.
    pub fn clear_finished(&mut self)
        ensures
            final(self)@ == (QueueModel { items: old(self)@.items.filter(open_filter()), ..old(self)@ }),
    {
        let ghost iv = item_views(self.items@);
        let mut kept: Vec<QueueItem> = Vec::new();
        let mut i: usize = 0;
        while i < self.items.len()
            invariant
                i <= self.items.len(),
                iv == item_views(self.items@),
                item_views(kept@) == iv.subrange(0, i as int).filter(open_filter()),
            decreases self.items.len() - i,
        {
            let ghost t = iv.subrange(0, i + 1);
            assert(t.drop_last() =~= iv.subrange(0, i as int));
            assert(t.last() == self.items@[i as int]@);
            proof {
                crate::text::lemma_filter_step(t, open_filter());
            }
            if is_open_exec(self.items[i].state) {
                let c = self.items[i].copy();
                let ghost b = item_views(kept@);
                kept.push(c);
                assert(item_views(kept@) =~= b.push(c@));
            }
            i = i + 1;
        }
        assert(iv.subrange(0, self.items.len() as int) =~= iv);
        self.items = kept;
    }

    /// Start the first queued item: it is marked running and a copy handed
    /// out.
    pub fn take_next(&mut self) -> (r: Option<QueueItem>)
        ensures
            match find_queued(old(self)@.items) {
                Some(k) => r matches Some(it) && it@ == (ItemModel { state: DownloadState::Running, ..old(self)@.items[k] })
                    && final(self)@ == (QueueModel { items: old(self)@.items.update(k, it@), ..old(self)@ }),
                None => r is None && final(self)@ == old(self)@,
            },
    {
        let ghost iv = item_views(self.items@);
        let mut i: usize = 0;
        while i < self.items.len()
            invariant
                i <= self.items.len(),
                iv == item_views(self.items@),
                self@ == old(self)@,
                find_queued(iv.subrange(0, i as int)) is None,
            decreases self.items.len() - i,
        {
            let ghost t = iv.subrange(0, i + 1);
            assert(t.drop_last() =~= iv.subrange(0, i as int));
            assert(t.last() == self.items@[i as int]@);
            if self.items[i].state == DownloadState::Queued {
                proof {
                    lemma_find_queued_prefix(iv, i as int + 1);
                }
                let mut e = self.items[i].copy();
                e.state = DownloadState::Running;
                let out = e.copy();
                let ghost before = self.items@;
                self.items.set(i, e);
                assert(item_views(self.items@) =~= item_views(before).update(i as int, out@));
                return Some(out);
            }
            i = i + 1;
        }
        assert(iv.subrange(0, self.items.len() as int) =~= iv);
        None
    }

    /// Mark an item finished in some state.
    pub fn set_state(&mut self, id: u64, state: DownloadState)
        ensures
            final(self)@ == with_item(old(self)@, id, state_fn(state)),
    {
        match self.find_id_exec(id) {
            Some(k) => {
                let mut e = self.items[k].copy();
                e.state = state;
                self.update_with(id, Ghost(state_fn(state)), e, k);
            },
            None => {},
        }
    }

    /// The item waits for the user to fetch it through the website; not a
    /// failure, so no error is kept.
    pub fn set_waiting(&mut self, id: u64)
        ensures
            final(self)@ == with_item(old(self)@, id, waiting_fn()),
    {
        match self.find_id_exec(id) {
            Some(k) => {
                let mut e = self.items[k].copy();
                e.state = DownloadState::NeedsUserAction;
                e.error = None;
                self.update_with(id, Ghost(waiting_fn()), e, k);
            },
            None => {},
        }
    }

    /// The item failed for a reason.
    pub fn set_failed(&mut self, id: u64, reason: String)
        ensures
            final(self)@ == with_item(old(self)@, id, failed_fn(reason@)),
    {
        match self.find_id_exec(id) {
            Some(k) => {
                let mut e = self.items[k].copy();
                e.state = DownloadState::Failed;
                e.error = Some(reason);
                self.update_with(id, Ghost(failed_fn(e@.error->0)), e, k);
            },
            None => {},
        }
    }

    /// Bytes have arrived.
    pub fn set_progress(&mut self, id: u64, done: u64, total: Option<u64>)
        ensures
            final(self)@ == with_item(old(self)@, id, progress_fn(done, total)),
    {
        match self.find_id_exec(id) {
            Some(k) => {
                let mut e = self.items[k].copy();
                e.bytes_done = done;
                e.bytes_total = total;
                self.update_with(id, Ghost(progress_fn(done, total)), e, k);
            },
            None => {},
        }
    }

    /// Record how many attempts have failed.
    pub fn set_attempts(&mut self, id: u64, n: u32)
        ensures
            final(self)@ == with_item(old(self)@, id, attempts_fn(n)),
    {
        match self.find_id_exec(id) {
            Some(k) => {
                let mut e = self.items[k].copy();
                e.attempts = n;
                self.update_with(id, Ghost(attempts_fn(n)), e, k);
            },
            None => {},
        }
    }

    /// The page a free account has to use for this file.
    pub fn mod_page(&self, item: &QueueItem) -> (r: String)
        ensures
            r@ == "https://www.nexusmods.com/"@ + self@.domain + "/mods/"@ + decimal(item@.mod_id as nat)
                + "?tab=files&file_id="@ + decimal(item@.file_id as nat) + "&nmm=1"@,
    {
        let v = concat_chars(chars_of("https://www.nexusmods.com/").as_slice(), chars_of(self.domain.as_str()).as_slice());
        let v = concat_chars(v.as_slice(), chars_of("/mods/").as_slice());
        let v = concat_chars(v.as_slice(), decimal_exec(item.mod_id).as_slice());
        let v = concat_chars(v.as_slice(), chars_of("?tab=files&file_id=").as_slice());
        let v = concat_chars(v.as_slice(), decimal_exec(item.file_id).as_slice());
        let v = concat_chars(v.as_slice(), chars_of("&nmm=1").as_slice());
        string_from_chars(v.as_slice())
    }
}

proof fn lemma_find_open_prefix(s: Seq<ItemModel>, n: int, mod_id: u64, file_id: u64)
    requires
        0 < n <= s.len(),
        find_open(s.subrange(0, n - 1), mod_id, file_id) is None,
        s[n - 1].mod_id == mod_id && s[n - 1].file_id == file_id && is_open(s[n - 1].state),
    ensures
        find_open(s, mod_id, file_id) == Some(n - 1),
    decreases s.len() - n,
{
    let t = s.subrange(0, n);
    assert(t.drop_last() =~= s.subrange(0, n - 1));
    if n == s.len() {
        assert(t =~= s);
    } else {
        lemma_find_open_extend(s, n, mod_id, file_id, n - 1);
    }
}

proof fn lemma_find_open_extend(s: Seq<ItemModel>, n: int, mod_id: u64, file_id: u64, k: int)
    requires
        0 < n <= s.len(),
        find_open(s.subrange(0, n), mod_id, file_id) == Some(k),
    ensures
        find_open(s, mod_id, file_id) == Some(k),
    decreases s.len() - n,
{
    if n < s.len() {
        let t = s.subrange(0, n + 1);
        assert(t.drop_last() =~= s.subrange(0, n));
        lemma_find_open_extend(s, n + 1, mod_id, file_id, k);
    } else {
        assert(s.subrange(0, n) =~= s);
    }
}

proof fn lemma_find_id_prefix(s: Seq<ItemModel>, n: int, id: u64)
    requires
        0 < n <= s.len(),
        find_id(s.subrange(0, n - 1), id) is None,
        s[n - 1].id == id,
    ensures
        find_id(s, id) == Some(n - 1),
    decreases s.len() - n,
{
    let t = s.subrange(0, n);
    assert(t.drop_last() =~= s.subrange(0, n - 1));
    lemma_find_id_extend(s, n, id, n - 1);
}

proof fn lemma_find_id_extend(s: Seq<ItemModel>, n: int, id: u64, k: int)
    requires
        0 < n <= s.len(),
        find_id(s.subrange(0, n), id) == Some(k),
    ensures
        find_id(s, id) == Some(k),
    decreases s.len() - n,
{
    if n < s.len() {
        let t = s.subrange(0, n + 1);
        assert(t.drop_last() =~= s.subrange(0, n));
        lemma_find_id_extend(s, n + 1, id, k);
    } else {
        assert(s.subrange(0, n) =~= s);
    }
}

proof fn lemma_find_queued_prefix(s: Seq<ItemModel>, n: int)
    requires
        0 < n <= s.len(),
        find_queued(s.subrange(0, n - 1)) is None,
        s[n - 1].state == DownloadState::Queued,
    ensures
        find_queued(s) == Some(n - 1),
    decreases s.len() - n,
{
    let t = s.subrange(0, n);
    assert(t.drop_last() =~= s.subrange(0, n - 1));
    lemma_find_queued_extend(s, n, n - 1);
}

proof fn lemma_find_queued_extend(s: Seq<ItemModel>, n: int, k: int)
    requires
        0 < n <= s.len(),
        find_queued(s.subrange(0, n)) == Some(k),
    ensures
        find_queued(s) == Some(k),
    decreases s.len() - n,
{
    if n < s.len() {
        let t = s.subrange(0, n + 1);
        assert(t.drop_last() =~= s.subrange(0, n));
        lemma_find_queued_extend(s, n + 1, k);
    } else {
        assert(s.subrange(0, n) =~= s);
    }
}

// ---------------------------------------------------------------------------
// Driving a transfer
// ---------------------------------------------------------------------------

/// What to do after an attempt at a transfer went wrong.
#[derive(Debug)]
pub enum StepAfter {
    /// A free account has to use the website; the item waits.
    NeedsUser,
    /// Try again after this many seconds.
    Retry(u64),
    /// Give up, with the reason shown to the user.
    Fail(String),
}

/// After the download-link request failed on attempt number `attempt`:
/// Premium and expired-link refusals wait for the user, transient failures
/// are retried until the attempts run out, anything else fails.
pub fn after_link_error(error: &NexusError, attempt: u32) -> (r: StepAfter)
    ensures
        (error matches NexusError::PremiumRequired || error matches NexusError::LinkExpired) ==> r matches StepAfter::NeedsUser,
        !(error matches NexusError::PremiumRequired || error matches NexusError::LinkExpired) ==> (
            if crate::client::should_retry_of(*error) && attempt < MAX_ATTEMPTS {
                r matches StepAfter::Retry(w) && w == backoff_of(attempt, None)
            } else {
                r matches StepAfter::Fail(m) && m@ == error_message(*error)
            }),
{
    match error {
        NexusError::PremiumRequired | NexusError::LinkExpired => StepAfter::NeedsUser,
        _ => after_fetch_error(error, attempt),
    }
}

/// After the transfer itself failed on attempt number `attempt`: transient
/// failures are retried until the attempts run out, anything else fails.
pub fn after_fetch_error(error: &NexusError, attempt: u32) -> (r: StepAfter)
    ensures
        if crate::client::should_retry_of(*error) && attempt < MAX_ATTEMPTS {
            r matches StepAfter::Retry(w) && w == backoff_of(attempt, None)
        } else {
            r matches StepAfter::Fail(m) && m@ == error_message(*error)
        },
{
    if crate::client::should_retry(error) && attempt < MAX_ATTEMPTS {
        StepAfter::Retry(backoff(attempt, None))
    } else {
        StepAfter::Fail(error.message())
    }
}

/// The item an `nxm://` file link queues: named as the API described the
/// file, carrying the link's credentials when it has both a key and an
/// expiry (a free account's download), none otherwise.
pub fn item_for_link(link: &crate::nxm::NxmFile, described: crate::client::Described) -> (r: QueueItem)
    ensures
        r@ == (ItemModel {
            id: 0,
            mod_id: link.mod_id,
            file_id: link.file_id,
            name: described.name@,
            file_name: described.file_name@,
            version: opt_view(described.version),
            state: DownloadState::Queued,
            bytes_done: 0,
            bytes_total: None,
            error: None,
            collection: None,
            credentials: match (link.key, link.expires) {
                (Some(k), Some(e)) => Some((k@, e)),
                _ => None,
            },
            attempts: 0,
        }),
{
    let item = QueueItem::new(link.mod_id, link.file_id, described.name.as_str(), described.file_name.as_str())
        .with_version(described.version);
    match (&link.key, link.expires) {
        (Some(key), Some(expires)) => item.with_credentials(key.as_str(), expires),
        _ => item,
    }
}

// ---------------------------------------------------------------------------
// Laws
// ---------------------------------------------------------------------------

/// Pushing a file that already has an open item never adds a second one: the
/// queue keeps its length and answers with the existing item's id. A push
/// that brings credentials revives that item (queued again, its error and
/// attempts cleared, the new credentials kept) and leaves every other item
/// alone; a push without credentials changes nothing.
pub proof fn law_push_does_not_duplicate(q: QueueModel, item: ItemModel)
    requires
        find_open(q.items, item.mod_id, item.file_id) is Some,
    ensures
        pushed(q, item).0.items.len() == q.items.len(),
        pushed(q, item).1 == q.items[find_open(q.items, item.mod_id, item.file_id)->0].id,
        pushed(q, item).0.next_id == q.next_id,
        item.credentials is None ==> pushed(q, item).0.items == q.items,
        item.credentials is Some ==> {
            let k = find_open(q.items, item.mod_id, item.file_id)->0;
            let e = pushed(q, item).0.items[k];
            &&& e.state == DownloadState::Queued
            &&& e.error is None
            &&& e.attempts == 0
            &&& e.credentials == item.credentials
            &&& e.id == q.items[k].id && e.mod_id == q.items[k].mod_id && e.file_id == q.items[k].file_id
            &&& forall|j: int| 0 <= j < q.items.len() && j != k ==> #[trigger] pushed(q, item).0.items[j] == q.items[j]
        },
{
    lemma_find_open_in_range(q.items, item.mod_id, item.file_id);
}

/// Every item's id is below the counter that hands out the next one.
pub open spec fn ids_below(q: QueueModel) -> bool {
    forall|i: int| 0 <= i < q.items.len() ==> (#[trigger] q.items[i]).id < q.next_id
}

/// No two open items are for the same mod file.
pub open spec fn open_unique(items: Seq<ItemModel>) -> bool {
    forall|i: int, j: int|
        0 <= i < j < items.len() && is_open((#[trigger] items[i]).state) && is_open((#[trigger] items[j]).state)
            ==> !(items[i].mod_id == items[j].mod_id && items[i].file_id == items[j].file_id)
}

proof fn lemma_find_open_none(s: Seq<ItemModel>, mod_id: u64, file_id: u64)
    requires
        find_open(s, mod_id, file_id) is None,
    ensures
        forall|i: int| 0 <= i < s.len() && is_open((#[trigger] s[i]).state) ==> !(s[i].mod_id == mod_id && s[i].file_id == file_id),
    decreases s.len(),
{
    if s.len() > 0 {
        lemma_find_open_none(s.drop_last(), mod_id, file_id);
        assert forall|i: int| 0 <= i < s.len() && is_open((#[trigger] s[i]).state) implies !(s[i].mod_id == mod_id && s[i].file_id == file_id) by {
            if i < s.len() - 1 {
                assert(s[i] == s.drop_last()[i]);
            }
        }
    }
}

/// Ids are never handed out twice: while the counter has not reached its
/// largest value, a new item gets an id no item in the queue has, every id
/// stays below the counter, and no two open items end up for the same mod
/// file.
pub proof fn law_pushed_ids_are_never_reused(q: QueueModel, item: ItemModel)
    requires
        ids_below(q),
        q.next_id < 0xffff_ffff_ffff_ffff,
    ensures
        ids_below(pushed(q, item).0),
        find_open(q.items, item.mod_id, item.file_id) is None ==> forall|i: int|
            0 <= i < q.items.len() ==> (#[trigger] q.items[i]).id != pushed(q, item).1,
        open_unique(q.items) ==> open_unique(pushed(q, item).0.items),
{
    let r = pushed(q, item).0;
    match find_open(q.items, item.mod_id, item.file_id) {
        Some(k) => {
            lemma_find_open_in_range(q.items, item.mod_id, item.file_id);
            assert forall|i: int| 0 <= i < r.items.len() implies (#[trigger] r.items[i]).id < r.next_id by {
                assert(r.items[i].id == q.items[i].id);
            }
            if open_unique(q.items) {
                assert forall|i: int, j: int|
                    0 <= i < j < r.items.len() && is_open((#[trigger] r.items[i]).state) && is_open((#[trigger] r.items[j]).state)
                    implies !(r.items[i].mod_id == r.items[j].mod_id && r.items[i].file_id == r.items[j].file_id) by {
                    assert(r.items[i].mod_id == q.items[i].mod_id && r.items[i].file_id == q.items[i].file_id);
                    assert(r.items[j].mod_id == q.items[j].mod_id && r.items[j].file_id == q.items[j].file_id);
                    assert(is_open(q.items[i].state));
                    assert(is_open(q.items[j].state));
                }
            }
        },
        None => {
            lemma_find_open_none(q.items, item.mod_id, item.file_id);
            assert forall|i: int| 0 <= i < r.items.len() implies (#[trigger] r.items[i]).id < r.next_id by {
                if i < q.items.len() {
                    assert(r.items[i] == q.items[i]);
                }
            }
            if open_unique(q.items) {
                assert forall|i: int, j: int|
                    0 <= i < j < r.items.len() && is_open((#[trigger] r.items[i]).state) && is_open((#[trigger] r.items[j]).state)
                    implies !(r.items[i].mod_id == r.items[j].mod_id && r.items[i].file_id == r.items[j].file_id) by {
                    assert(r.items[i] == q.items[i]);
                    if j < q.items.len() {
                        assert(r.items[j] == q.items[j]);
                    }
                }
            }
        },
    }
}

/// The largest id is at least every item's id.
proof fn lemma_max_id_bounds(items: Seq<ItemModel>)
    ensures
        forall|i: int| 0 <= i < items.len() ==> (#[trigger] items[i]).id <= max_id(items),
    decreases items.len(),
{
    if items.len() > 1 {
        lemma_max_id_bounds(items.drop_last());
        assert forall|i: int| 0 <= i < items.len() implies (#[trigger] items[i]).id <= max_id(items) by {
            if i < items.len() - 1 {
                assert(items[i] == items.drop_last()[i]);
            }
        }
    }
}

/// A restored queue hands out ids after every restored one, as long as the
/// largest restored id is not the counter's largest value.
pub proof fn law_restored_ids_stay_below_the_counter(items: Seq<ItemModel>)
    requires
        items.len() > 0,
        max_id(items) < 0xffff_ffff_ffff_ffff,
    ensures
        forall|i: int| 0 <= i < items.len() ==> (#[trigger] items[i]).id < next_after(max_id(items)),
{
    lemma_max_id_bounds(items);
}

proof fn lemma_find_open_in_range(s: Seq<ItemModel>, mod_id: u64, file_id: u64)
    ensures
        match find_open(s, mod_id, file_id) {
            Some(k) => 0 <= k < s.len() && s[k].mod_id == mod_id && s[k].file_id == file_id && is_open(s[k].state),
            None => true,
        },
    decreases s.len(),
{
    if s.len() > 0 {
        lemma_find_open_in_range(s.drop_last(), mod_id, file_id);
    }
}

/// A new file is appended under the next id, and the counter moves on.
pub proof fn law_push_appends_new(q: QueueModel, item: ItemModel)
    requires
        find_open(q.items, item.mod_id, item.file_id) is None,
    ensures
        pushed(q, item).0.items == q.items.push(ItemModel { id: q.next_id, ..item }),
        pushed(q, item).1 == q.next_id,
        pushed(q, item).0.next_id == next_after(q.next_id),
{
}

/// After clearing, only open items remain, and every open item is still
/// there.
pub proof fn law_clear_keeps_exactly_the_open(items: Seq<ItemModel>)
    ensures
        forall|i: int| 0 <= i < items.filter(open_filter()).len() ==> is_open(#[trigger] items.filter(open_filter())[i].state),
        forall|i: int| 0 <= i < items.len() && is_open((#[trigger] items[i]).state) ==> items.filter(open_filter()).contains(items[i]),
        items.filter(open_filter()).len() <= items.len(),
{
    assert forall|i: int| 0 <= i < items.filter(open_filter()).len() implies is_open(#[trigger] items.filter(open_filter())[i].state) by {
        items.lemma_filter_pred(open_filter(), i);
    }
    assert forall|i: int| 0 <= i < items.len() && is_open((#[trigger] items[i]).state) implies items.filter(open_filter()).contains(items[i]) by {
        items.lemma_filter_contains(open_filter(), i);
    }
    items.lemma_filter_len(open_filter());
}

} // verus!
