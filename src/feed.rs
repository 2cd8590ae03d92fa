//! Paginated fetching of a title's chapter feed: which page to request next, how the
//! pages merge, and when pagination ends.
use vstd::prelude::*;
use serde_json::Value;
use crate::json::{JsonNode, JsonShape, json_at, json_shape, key_path};
use crate::text::{decimal, decimal_string, texts};

verus! {

/// The number of records a full page holds; a shorter page is the last one.
pub const PAGE_SIZE: u32 = 500;

#[derive(Clone, Copy, Debug, PartialEq, Eq)]
pub enum FeedError {
    /// The server answered the first page with a non-success status.
    Status,
    /// The first page's body was not a JSON object.
    Json,
    /// The next page's offset does not fit the protocol's 32-bit offset.
    OffsetOutOfRange,
}

#[derive(Clone, Copy, Debug, PartialEq, Eq)]
pub enum FeedStatus {
    Fetching,
    Complete,
    Failed(FeedError),
}

/// What the caller does next.
#[derive(Clone, Copy, Debug, PartialEq, Eq)]
pub enum FeedAction {
    /// Request the page at this offset.
    Fetch(u32),
    /// The merged feed is complete.
    Done,
    /// The fetch failed; the entry is left untouched.
    Fail(FeedError),
}

/// The merger's state: the offset of the next page, how many pages were merged, the
/// records so far and the record count of the last merged page.
pub ghost struct FeedModel {
    pub start: nat,
    pub next_offset: nat,
    pub pages: nat,
    pub data: Seq<Value>,
    pub last_count: nat,
    pub status: FeedStatus,
}

/// Merges the pages of one title's feed, in increasing offset order.
pub struct FeedMerger {
    pub start_offset: u32,
    pub next_offset: u32,
    pub pages: u32,
    pub data: Vec<Value>,
    pub last_count: usize,
    pub status: FeedStatus,
    /// When each page was merged, as `YYYY-MM-DD hh:mm:ss` in UTC.
    pub fetched_at: Vec<String>,
}

impl View for FeedMerger {
    type V = FeedModel;

    open spec fn view(&self) -> FeedModel {
        FeedModel {
            start: self.start_offset as nat,
            next_offset: self.next_offset as nat,
            pages: self.pages as nat,
            data: self.data@,
            last_count: self.last_count as nat,
            status: self.status,
        }
    }
}

pub open spec fn initial_feed(start: nat) -> FeedModel {
    FeedModel {
        start,
        next_offset: start,
        pages: 0,
        data: Seq::empty(),
        last_count: 0,
        status: FeedStatus::Fetching,
    }
}

/// Merging one page: its records are appended; a full page asks for the next one, a
/// shorter page ends the feed.
pub open spec fn page_step(m: FeedModel, page: Seq<Value>) -> FeedModel {
    if !(m.status is Fetching) {
        m
    } else if page.len() < PAGE_SIZE {
        FeedModel {
            pages: m.pages + 1,
            data: m.data + page,
            last_count: page.len(),
            status: FeedStatus::Complete,
            ..m
        }
    } else if m.next_offset + PAGE_SIZE <= u32::MAX {
        FeedModel {
            next_offset: (m.next_offset + PAGE_SIZE) as nat,
            pages: m.pages + 1,
            data: m.data + page,
            last_count: page.len(),
            ..m
        }
    } else {
        FeedModel {
            pages: m.pages + 1,
            data: m.data + page,
            last_count: page.len(),
            status: FeedStatus::Failed(FeedError::OffsetOutOfRange),
            ..m
        }
    }
}

/// A page that could not be had: fatal on the first page; on a later one the same
/// page is asked for again and nothing merged so far is lost.
pub open spec fn failure_step(m: FeedModel, e: FeedError) -> FeedModel {
    if m.status is Fetching && m.pages == 0 {
        FeedModel { status: FeedStatus::Failed(e), ..m }
    } else {
        m
    }
}

pub open spec fn action_of(m: FeedModel) -> FeedAction {
    match m.status {
        FeedStatus::Fetching => FeedAction::Fetch(m.next_offset as u32),
        FeedStatus::Complete => FeedAction::Done,
        FeedStatus::Failed(e) => FeedAction::Fail(e),
    }
}

/// The address of the feed page at `offset`.
pub open spec fn feed_url(id: Seq<char>, offset: nat) -> Seq<char> {
    "https://api.mangadex.org/manga/"@ + id + "/feed?limit=500&offset="@ + decimal(offset)
}

pub open spec fn ascii_digit(c: char) -> bool {
    '0' <= c && c <= '9'
}

/// The form of a fetch stamp, `YYYY-MM-DD hh:mm:ss`: a year of at least four digits
/// (with a leading `+` past 9999), then month, day, hour, minute and second of two
/// digits each.
pub open spec fn stamp_form(s: Seq<char>) -> bool {
    let t = s.len() - 15;
    &&& s.len() >= 19
    &&& forall|i: int| 0 <= i < t ==> ascii_digit(#[trigger] s[i]) || (i == 0 && s[i] == '+')
    &&& s[t] == '-' && ascii_digit(s[t + 1]) && ascii_digit(s[t + 2])
    &&& s[t + 3] == '-' && ascii_digit(s[t + 4]) && ascii_digit(s[t + 5])
    &&& s[t + 6] == ' ' && ascii_digit(s[t + 7]) && ascii_digit(s[t + 8])
    &&& s[t + 9] == ':' && ascii_digit(s[t + 10]) && ascii_digit(s[t + 11])
    &&& s[t + 12] == ':' && ascii_digit(s[t + 13]) && ascii_digit(s[t + 14])
}

/// Relies on chrono::Utc::now, formatted by chrono as `%Y-%m-%d %H:%M:%S`: each field
/// zero-padded, the year to at least four digits (the clock reads no year before 1970).
#[verifier::external_body]
fn fetch_time() -> (r: String)
    ensures
        stamp_form(r@),
{
    chrono::Utc::now().naive_utc().format("%Y-%m-%d %H:%M:%S").to_string()
}

/// How many records a page body holds, as serde_json reads it: the length of the array
/// under `data` of a JSON object, 0 when the object has no such array, `None` when the
/// body is not a JSON object.
pub open spec fn page_count(body: Seq<char>) -> Option<nat> {
    match json_shape(body, Seq::empty()) {
        JsonShape::Object => match json_shape(body, seq!["data"@]) {
            JsonShape::Array(n) => Some(n),
            _ => Some(0),
        },
        _ => None,
    }
}

/// The records of a page body: the array under `data` of a JSON object, or none when
/// the object has no such array. `None` when the body is not a JSON object.
pub fn page_records(body: &str) -> (r: Option<Vec<Value>>)
    ensures
        r is None <==> page_count(body@) is None,
        r matches Some(v) ==> page_count(body@) == Some(v@.len()),
{
    let top: Vec<String> = Vec::new();
    assert(texts(top@) =~= Seq::<Seq<char>>::empty());
    match json_at(body, &top) {
        JsonNode::Object => {
            let keys: Vec<&str> = vec!["data"];
            let path = key_path(&keys);
            assert(keys@.map_values(|k: &str| k@) =~= seq!["data"@]);
            match json_at(body, &path) {
                JsonNode::Array(v) => Some(v),
                _ => Some(Vec::new()),
            }
        },
        _ => None,
    }
}

/// Merging a sequence of pages, one after another.
pub open spec fn run_pages(m: FeedModel, pages: Seq<Seq<Value>>) -> FeedModel
    decreases pages.len(),
{
    if pages.len() == 0 {
        m
    } else {
        page_step(run_pages(m, pages.drop_last()), pages.last())
    }
}

/// The number of records in a sequence of pages.
pub open spec fn total_records(pages: Seq<Seq<Value>>) -> nat
    decreases pages.len(),
{
    if pages.len() == 0 {
        0
    } else {
        total_records(pages.drop_last()) + pages.last().len()
    }
}

proof fn lemma_total_records(pages: Seq<Seq<Value>>)
    ensures
        pages.flatten().len() == total_records(pages),
    decreases pages.len(),
{
    broadcast use Seq::lemma_flatten_push;

    if pages.len() > 0 {
        lemma_total_records(pages.drop_last());
        assert(pages =~= pages.drop_last().push(pages.last()));
    }
}

proof fn lemma_full_pages(start: nat, pages: Seq<Seq<Value>>, k: nat)
    requires
        k <= pages.len(),
        forall|i: int| 0 <= i < k ==> (#[trigger] pages[i]).len() == PAGE_SIZE,
        start + PAGE_SIZE * k <= u32::MAX,
    ensures
        run_pages(initial_feed(start), pages.take(k as int)) == (FeedModel {
            start,
            next_offset: (start + PAGE_SIZE * k) as nat,
            pages: k,
            data: pages.take(k as int).flatten(),
            last_count: if k == 0 {
                0
            } else {
                PAGE_SIZE as nat
            },
            status: FeedStatus::Fetching,
        }),
    decreases k,
{
    broadcast use Seq::lemma_flatten_push;

    if k == 0 {
        assert(pages.take(0) =~= Seq::<Seq<Value>>::empty());
    } else {
        let t = pages.take(k as int);
        assert(t.drop_last() =~= pages.take(k - 1));
        assert(t.last() == pages[k - 1]);
        lemma_full_pages(start, pages, (k - 1) as nat);
        assert(t =~= pages.take(k - 1).push(pages[k - 1]));
    }
}

/// A feed of full pages followed by one shorter (possibly empty) page merges into all
/// of the pages' records in their order across pages; page `i` is requested at offset
/// `start + 500 * i`, and the count reported is that of the last page.
pub proof fn lemma_pages_merge(start: nat, pages: Seq<Seq<Value>>)
    requires
        pages.len() >= 1,
        forall|i: int| 0 <= i < pages.len() - 1 ==> (#[trigger] pages[i]).len() == PAGE_SIZE,
        pages.last().len() < PAGE_SIZE,
        start + PAGE_SIZE * (pages.len() - 1) <= u32::MAX,
    ensures
        forall|i: int|
            0 <= i < pages.len() ==> action_of(#[trigger] run_pages(initial_feed(start), pages.take(i)))
                == FeedAction::Fetch((start + PAGE_SIZE * i) as u32),
        run_pages(initial_feed(start), pages).data == pages.flatten(),
        run_pages(initial_feed(start), pages).data.len() == total_records(pages),
        run_pages(initial_feed(start), pages).last_count == pages.last().len(),
        run_pages(initial_feed(start), pages).status == FeedStatus::Complete,
{
    broadcast use Seq::lemma_flatten_push;

    let n = (pages.len() - 1) as nat;
    assert forall|i: int|
        0 <= i < pages.len() implies action_of(#[trigger] run_pages(initial_feed(start), pages.take(i)))
            == FeedAction::Fetch((start + PAGE_SIZE * i) as u32) by {
        lemma_full_pages(start, pages, i as nat);
    }
    lemma_full_pages(start, pages, n);
    lemma_total_records(pages);
    assert(pages.drop_last() =~= pages.take(n as int));
    assert(pages =~= pages.take(n as int).push(pages.last()));
}

impl FeedMerger {
    /// While pages are still being fetched, the next offset lies one page beyond the
    /// last merged page.
    pub open spec fn wf(&self) -> bool {
        self.status is Fetching ==> self.next_offset as nat == self.start_offset as nat
            + PAGE_SIZE * (self.pages as nat)
    }

    pub fn new(start_offset: u32) -> (r: FeedMerger)
        ensures
            r@ == initial_feed(start_offset as nat),
            r.wf(),
            r.fetched_at@.len() == 0,
    {
        FeedMerger {
            start_offset,
            next_offset: start_offset,
            pages: 0,
            data: Vec::new(),
            last_count: 0,
            status: FeedStatus::Fetching,
            fetched_at: Vec::new(),
        }
    }

    /// What to do now.
    pub fn action(&self) -> (r: FeedAction)
        ensures
            r == action_of(self@),
    {
        match self.status {
            FeedStatus::Fetching => FeedAction::Fetch(self.next_offset),
            FeedStatus::Complete => FeedAction::Done,
            FeedStatus::Failed(e) => FeedAction::Fail(e),
        }
    }

    /// The address of the next page of the feed of title `id`.
    pub fn request_url(&self, id: &str) -> (r: String)
        ensures
            r@ == feed_url(id@, self.next_offset as nat),
    {
        let mut s = String::from_str("https://api.mangadex.org/manga/");
        s.append(id);
        s.append("/feed?limit=500&offset=");
        let n = decimal_string(self.next_offset);
        s.append(n.as_str());
        s
    }

    /// Merges a page's records, stamping the time of the fetch.
    pub fn accept_records(&mut self, records: Vec<Value>) -> (r: FeedAction)
        requires
            old(self).wf(),
        ensures
            final(self).wf(),
            final(self)@ == page_step(old(self)@, records@),
            r == action_of(final(self)@),
            old(self).status is Fetching ==> final(self).fetched_at@.len() == old(
                self,
            ).fetched_at@.len() + 1 && final(self).fetched_at@.take(
                old(self).fetched_at@.len() as int,
            ) == old(self).fetched_at@ && stamp_form(final(self).fetched_at@.last()@),
            !(old(self).status is Fetching) ==> final(self).fetched_at@ == old(
                self,
            ).fetched_at@,
    {
        if !matches!(self.status, FeedStatus::Fetching) {
            return self.action();
        }
        let ghost before = self.fetched_at@;
        let stamp = fetch_time();
        self.fetched_at.push(stamp);
        assert(self.fetched_at@.take(before.len() as int) =~= before);
        let count = records.len();
        let mut records = records;
        self.data.append(&mut records);
        self.last_count = count;
        self.pages = self.pages + 1;
        if count < PAGE_SIZE as usize {
            self.status = FeedStatus::Complete;
        } else if self.next_offset <= u32::MAX - PAGE_SIZE {
            self.next_offset = self.next_offset + PAGE_SIZE;
        } else {
            self.status = FeedStatus::Failed(FeedError::OffsetOutOfRange);
        }
        self.action()
    }

    /// Takes note of a page that could not be had.
    pub fn accept_failure(&mut self, e: FeedError) -> (r: FeedAction)
        requires
            old(self).wf(),
        ensures
            final(self).wf(),
            final(self)@ == failure_step(old(self)@, e),
            final(self).fetched_at@ == old(self).fetched_at@,
            r == action_of(final(self)@),
    {
        if self.pages == 0 && matches!(self.status, FeedStatus::Fetching) {
            self.status = FeedStatus::Failed(e);
        }
        self.action()
    }

    /// Handles the server's answer for the page just requested: `success` is whether
    /// the status was a success, `body` the text received.
    pub fn accept_response(&mut self, success: bool, body: &str) -> (r: FeedAction)
        requires
            old(self).wf(),
        ensures
            final(self).wf(),
            r == action_of(final(self)@),
            !success ==> final(self)@ == failure_step(old(self)@, FeedError::Status),
            success ==> match page_count(body@) {
                None => final(self)@ == failure_step(old(self)@, FeedError::Json),
                Some(n) => exists|p: Seq<Value>|
                    p.len() == n && final(self)@ == page_step(old(self)@, p),
            },
    {
        if !success {
            return self.accept_failure(FeedError::Status);
        }
        match page_records(body) {
            Some(records) => {
                let ghost p = records@;
                let r = self.accept_records(records);
                assert(self@ == page_step(old(self)@, p));
                r
            },
            None => self.accept_failure(FeedError::Json),
        }
    }
}

} // verus!
