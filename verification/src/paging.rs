//! Paging through a stream. FreshRSS continues with an opaque token, Miniflux
//! with a numeric offset.
use vstd::prelude::*;

use crate::data::{Contents, ContentsView, IdList, IdListView, Item, ItemView};
use crate::greader::{Session, SessionView};
use crate::http::{Request, RequestView};
use crate::text;

verus! {

/// The most pages that are read of one stream. It also stops a server that
/// would page forever.
pub const MAX_PAGES: usize = 50;

/// A JSON value, as far as a continuation needs it.
#[derive(Debug)]
pub enum Json {
    Null,
    Bool(bool),
    /// A number, with its value where that is a non-negative integer.
    Number(Option<u64>),
    Text(String),
    List,
    Record,
}

pub enum JsonView {
    Null,
    Bool(bool),
    Number(Option<u64>),
    Text(Seq<char>),
    List,
    Record,
}

impl DeepView for Json {
    type V = JsonView;

    open spec fn deep_view(&self) -> JsonView {
        match self {
            Json::Null => JsonView::Null,
            Json::Bool(b) => JsonView::Bool(*b),
            Json::Number(n) => JsonView::Number(*n),
            Json::Text(s) => JsonView::Text(s@),
            Json::List => JsonView::List,
            Json::Record => JsonView::Record,
        }
    }
}

/// The JSON value that a text writes, if it writes one.
pub uninterp spec fn json_value(source: Seq<char>) -> Option<JsonView>;

/// Calls `serde_json::from_str` for a `serde_json::Value` and tells its
/// variants apart; of a number it asks `as_u64`. Believed of it: the result is
/// a function of the text.
#[verifier::external_body]
fn parse_json(source: &str) -> (r: Option<Json>)
    ensures
        r.deep_view() == json_value(source@),
{
    match serde_json::from_str::<serde_json::Value>(source) {
        Err(_) => None,
        Ok(serde_json::Value::Null) => Some(Json::Null),
        Ok(serde_json::Value::Bool(b)) => Some(Json::Bool(b)),
        Ok(serde_json::Value::Number(n)) => Some(Json::Number(n.as_u64())),
        Ok(serde_json::Value::String(s)) => Some(Json::Text(s)),
        Ok(serde_json::Value::Array(_)) => Some(Json::List),
        Ok(serde_json::Value::Object(_)) => Some(Json::Record),
    }
}

/// Why a continuation could not be read.
#[derive(Clone, Copy, Debug, PartialEq, Eq, Structural)]
pub enum ContinuationError {
    /// The text is no JSON value.
    NotJson,
    /// A number that is negative, too large or not whole.
    NotAnOffset,
    /// A text that is not a number.
    NotANumber,
    /// Neither a number, a text nor null.
    Unexpected,
}

impl JsonView {
    /// The offset that the value stands for. Null and the empty text mean the
    /// end of the stream.
    pub open spec fn offset(self) -> Result<Option<usize>, ContinuationError> {
        match self {
            JsonView::Number(Some(n)) => Ok(Some(n as usize)),
            JsonView::Number(None) => Err(ContinuationError::NotAnOffset),
            JsonView::Text(s) => if s.len() == 0 {
                Ok(None)
            } else {
                match text::decimal_value(s) {
                    Some(n) => if n <= usize::MAX {
                        Ok(Some(n as usize))
                    } else {
                        Err(ContinuationError::NotANumber)
                    },
                    None => Err(ContinuationError::NotANumber),
                }
            },
            JsonView::Null => Ok(None),
            _ => Err(ContinuationError::Unexpected),
        }
    }
}

/// Reads Miniflux's continuation offset out of a JSON value: a number, a text
/// that writes one, or null.
pub fn continuation_offset(value: Json) -> (r: Result<Option<usize>, ContinuationError>)
    ensures
        r == value.deep_view().offset(),
{
    match value {
        Json::Number(Some(n)) => Ok(Some(n as usize)),
        Json::Number(None) => Err(ContinuationError::NotAnOffset),
        Json::Text(s) => {
            if s.as_str().is_empty() {
                Ok(None)
            } else {
                match text::parse_usize(s.as_str()) {
                    Some(n) => Ok(Some(n)),
                    None => Err(ContinuationError::NotANumber),
                }
            }
        },
        Json::Null => Ok(None),
        _ => Err(ContinuationError::Unexpected),
    }
}

/// Reads Miniflux's continuation offset out of JSON text.
pub fn de_continuation(source: &str) -> (r: Result<Option<usize>, ContinuationError>)
    ensures
        r == match json_value(source@) {
            Some(value) => value.offset(),
            None => Err(ContinuationError::NotJson),
        },
{
    match parse_json(source) {
        Some(value) => continuation_offset(value),
        None => Err(ContinuationError::NotJson),
    }
}

/// An offset means the same whether the server writes it as a number or as a
/// text.
pub proof fn law_offset_forms_agree(n: u64)
    requires
        n <= usize::MAX,
    ensures
        JsonView::Text(text::decimal(n as nat)).offset() == JsonView::Number(Some(n)).offset(),
        JsonView::Number(Some(n)).offset() == Ok::<Option<usize>, ContinuationError>(
            Some(n as usize),
        ),
{
    text::law_decimal_reads_back(n as nat);
    assert(text::decimal(n as nat).len() > 0);
}

/// Reads the ids of a stream page by page.
#[derive(Debug)]
pub struct IdPager {
    pub stream: String,
    pub xt: Option<String>,
    pub offset: Option<usize>,
    /// How many pages may still be read; zero once the end is reached.
    pub left: usize,
    pub ids: Vec<String>,
}

#[verifier::ext_equal]
pub struct IdPagerView {
    pub stream: Seq<char>,
    pub xt: Option<Seq<char>>,
    pub offset: Option<usize>,
    pub left: nat,
    pub ids: Seq<Seq<char>>,
}

impl DeepView for IdPager {
    type V = IdPagerView;

    open spec fn deep_view(&self) -> IdPagerView {
        IdPagerView {
            stream: self.stream@,
            xt: self.xt.deep_view(),
            offset: self.offset,
            left: self.left as nat,
            ids: self.ids.deep_view(),
        }
    }
}

/// The offset where the page to be read begins.
pub open spec fn offset_or_zero(offset: Option<usize>) -> usize {
    match offset {
        Some(c) => c,
        None => 0,
    }
}

impl IdPagerView {
    /// Before the first page of a stream, without the items tagged `xt`.
    pub open spec fn start(stream: Seq<char>, xt: Option<Seq<char>>) -> IdPagerView {
        IdPagerView { stream, xt, offset: None, left: MAX_PAGES as nat, ids: Seq::empty() }
    }

    /// The end is reached.
    pub open spec fn done(self) -> bool {
        self.left == 0
    }

    /// The request for the next page.
    pub open spec fn call(self, session: SessionView) -> RequestView {
        session.ids_call(self.stream, self.xt, self.offset)
    }

    /// The page names a later offset to go on with.
    pub open spec fn goes_on(self, page: IdListView) -> bool {
        page.continuation is Some && page.continuation->0 > offset_or_zero(self.offset)
    }

    /// After a page. A continuation that is absent or does not advance ends the
    /// stream.
    pub open spec fn take_page(self, page: IdListView) -> IdPagerView {
        IdPagerView {
            offset: if self.goes_on(page) {
                page.continuation
            } else {
                self.offset
            },
            left: if self.goes_on(page) && self.left > 0 {
                (self.left - 1) as nat
            } else {
                0
            },
            ids: self.ids + page.item_refs,
            ..self
        }
    }
}

impl IdPager {
    /// Before the first page of a stream, without the items tagged `xt`.
    pub fn new(stream: &str, xt: Option<&str>) -> (r: Self)
        ensures
            r.deep_view() == IdPagerView::start(stream@, xt.deep_view()),
    {
        IdPager {
            stream: stream.to_owned(),
            xt: match xt {
                Some(tag) => Some(tag.to_owned()),
                None => None,
            },
            offset: None,
            left: MAX_PAGES,
            ids: Vec::new(),
        }
    }

    /// Decides whether the end is reached.
    pub fn done(&self) -> (r: bool)
        ensures
            r == self.deep_view().done(),
    {
        self.left == 0
    }

    /// The request for the next page.
    pub fn request(&self, session: &Session) -> (r: Request)
        ensures
            r.deep_view() == self.deep_view().call(session.deep_view()),
    {
        let xt = match &self.xt {
            Some(tag) => Some(tag.as_str()),
            None => None,
        };
        session.item_ids(self.stream.as_str(), xt, self.offset)
    }

    /// Takes a page in.
    pub fn accept(self, page: IdList) -> (r: Self)
        ensures
            r.deep_view() == self.deep_view().take_page(page.deep_view()),
    {
        let before: usize = match self.offset {
            Some(c) => c,
            None => 0,
        };
        let next: Option<usize> = match page.continuation {
            Some(c) => if c > before {
                Some(c)
            } else {
                None
            },
            None => None,
        };
        let mut ids = self.ids;
        let mut refs = page.item_refs;
        ids.append(&mut refs);
        assert(ids.deep_view() =~= self.ids.deep_view() + page.item_refs.deep_view());
        match next {
            Some(c) => IdPager {
                stream: self.stream,
                xt: self.xt,
                offset: Some(c),
                left: if self.left > 0 {
                    self.left - 1
                } else {
                    0
                },
                ids,
            },
            None => IdPager { stream: self.stream, xt: self.xt, offset: self.offset, left: 0, ids },
        }
    }
}

/// Reads the items of a stream page by page.
#[derive(Debug)]
pub struct StreamPager {
    pub stream: String,
    pub xt: Option<String>,
    pub continuation: Option<String>,
    /// How many pages may still be read; zero once the end is reached.
    pub left: usize,
    pub items: Vec<Item>,
}

#[verifier::ext_equal]
pub struct StreamPagerView {
    pub stream: Seq<char>,
    pub xt: Option<Seq<char>>,
    pub continuation: Option<Seq<char>>,
    pub left: nat,
    pub items: Seq<ItemView>,
}

impl DeepView for StreamPager {
    type V = StreamPagerView;

    open spec fn deep_view(&self) -> StreamPagerView {
        StreamPagerView {
            stream: self.stream@,
            xt: self.xt.deep_view(),
            continuation: self.continuation.deep_view(),
            left: self.left as nat,
            items: self.items.deep_view(),
        }
    }
}

/// The page names a token to go on with.
pub open spec fn has_more(page: ContentsView) -> bool {
    page.continuation is Some && page.continuation->0.len() > 0
}

impl StreamPagerView {
    /// Before the first page of a stream, without the items tagged `xt`.
    pub open spec fn start(stream: Seq<char>, xt: Option<Seq<char>>) -> StreamPagerView {
        StreamPagerView {
            stream,
            xt,
            continuation: None,
            left: MAX_PAGES as nat,
            items: Seq::empty(),
        }
    }

    /// The end is reached.
    pub open spec fn done(self) -> bool {
        self.left == 0
    }

    /// The request for the next page.
    pub open spec fn call(self, session: SessionView) -> RequestView {
        session.stream_call(self.stream, self.xt, self.continuation)
    }

    /// After a page. A token that is absent or empty ends the stream.
    pub open spec fn take_page(self, page: ContentsView) -> StreamPagerView {
        StreamPagerView {
            continuation: if has_more(page) {
                page.continuation
            } else {
                self.continuation
            },
            left: if has_more(page) && self.left > 0 {
                (self.left - 1) as nat
            } else {
                0
            },
            items: self.items + page.items,
            ..self
        }
    }
}

impl StreamPager {
    /// Before the first page of a stream, without the items tagged `xt`.
    pub fn new(stream: &str, xt: Option<&str>) -> (r: Self)
        ensures
            r.deep_view() == StreamPagerView::start(stream@, xt.deep_view()),
    {
        StreamPager {
            stream: stream.to_owned(),
            xt: match xt {
                Some(tag) => Some(tag.to_owned()),
                None => None,
            },
            continuation: None,
            left: MAX_PAGES,
            items: Vec::new(),
        }
    }

    /// Decides whether the end is reached.
    pub fn done(&self) -> (r: bool)
        ensures
            r == self.deep_view().done(),
    {
        self.left == 0
    }

    /// The request for the next page.
    pub fn request(&self, session: &Session) -> (r: Request)
        ensures
            r.deep_view() == self.deep_view().call(session.deep_view()),
    {
        let xt = match &self.xt {
            Some(tag) => Some(tag.as_str()),
            None => None,
        };
        let continuation = match &self.continuation {
            Some(c) => Some(c.as_str()),
            None => None,
        };
        session.stream_items(self.stream.as_str(), xt, continuation)
    }

    /// Takes a page in.
    pub fn accept(self, page: Contents) -> (r: Self)
        ensures
            r.deep_view() == self.deep_view().take_page(page.deep_view()),
    {
        let next: Option<String> = match page.continuation {
            Some(c) => if c.as_str().is_empty() {
                None
            } else {
                Some(c)
            },
            None => None,
        };
        let mut items = self.items;
        let mut more = page.items;
        items.append(&mut more);
        assert(items.deep_view() =~= self.items.deep_view() + page.items.deep_view());
        match next {
            Some(c) => StreamPager {
                stream: self.stream,
                xt: self.xt,
                continuation: Some(c),
                left: if self.left > 0 {
                    self.left - 1
                } else {
                    0
                },
                items,
            },
            None => StreamPager {
                stream: self.stream,
                xt: self.xt,
                continuation: self.continuation,
                left: 0,
                items,
            },
        }
    }
}

impl IdPagerView {
    /// After the pages, as far as they are asked for.
    pub open spec fn run(self, pages: Seq<IdListView>) -> IdPagerView
        decreases pages.len(),
    {
        if pages.len() == 0 {
            self
        } else {
            let before = self.run(pages.drop_last());
            if before.done() {
                before
            } else {
                before.take_page(pages.last())
            }
        }
    }
}

impl IdPagerView {
    /// The pages are those that are asked for until the end is reached.
    pub open spec fn reads(self, pages: Seq<IdListView>) -> bool {
        &&& self.run(pages).done()
        &&& forall|k: int| 0 <= k < pages.len() ==> !self.run(#[trigger] pages.take(k)).done()
    }
}

/// The ids of the pages, in order.
pub open spec fn all_ids(pages: Seq<IdListView>) -> Seq<Seq<char>>
    decreases pages.len(),
{
    if pages.len() == 0 {
        Seq::empty()
    } else {
        all_ids(pages.drop_last()) + pages.last().item_refs
    }
}

/// The ids of all pages that are read are kept, in order.
pub proof fn law_ids_kept(pager: IdPagerView, pages: Seq<IdListView>)
    requires
        pager.reads(pages),
    ensures
        pager.run(pages).ids == pager.ids + all_ids(pages),
{
    lemma_ids_kept(pager, pages, pages.len() as int);
    assert(pages.take(pages.len() as int) =~= pages);
}

proof fn lemma_ids_kept(pager: IdPagerView, pages: Seq<IdListView>, n: int)
    requires
        pager.reads(pages),
        0 <= n <= pages.len(),
    ensures
        pager.run(pages.take(n)).ids == pager.ids + all_ids(pages.take(n)),
    decreases n,
{
    if n > 0 {
        lemma_ids_kept(pager, pages, n - 1);
        assert(pages.take(n).drop_last() =~= pages.take(n - 1));
        assert(pager.run(pages.take(n)).ids =~= pager.ids + all_ids(pages.take(n)));
    } else {
        assert(pager.ids + all_ids(pages.take(0)) =~= pager.ids);
    }
}

/// No more pages are read than a pager may still read, whatever the server
/// answers: from the start, at most [`MAX_PAGES`].
pub proof fn law_ids_end(pager: IdPagerView, pages: Seq<IdListView>)
    ensures
        pages.len() >= pager.left ==> pager.run(pages).done(),
        !pager.run(pages).done() ==> pager.run(pages).left + pages.len() == pager.left,
    decreases pages.len(),
{
    if pages.len() > 0 {
        law_ids_end(pager, pages.drop_last());
    }
}

/// As long as pages are asked for, each begins at a later offset than the one
/// before.
pub proof fn law_offset_advances(pager: IdPagerView, page: IdListView)
    requires
        !pager.take_page(page).done(),
    ensures
        pager.take_page(page).offset is Some,
        offset_or_zero(pager.take_page(page).offset) > offset_or_zero(pager.offset),
{
}

/// The page at `k` names a later offset than the one that it begins at, which is
/// the one that the page before named.
pub open spec fn advances(pages: Seq<IdListView>, k: int) -> bool {
    &&& pages[k].continuation is Some
    &&& pages[k].continuation->0 > offset_or_zero(
        if k == 0 {
            None
        } else {
            pages[k - 1].continuation
        },
    )
}

/// The pages are the first of one stream of ids: each but the last names a later
/// offset to go on with, and the last does not or is the last that may be read.
pub open spec fn ids_chained(pages: Seq<IdListView>) -> bool {
    &&& 0 < pages.len() <= MAX_PAGES
    &&& forall|k: int| 0 <= k < pages.len() - 1 ==> #[trigger] advances(pages, k)
    &&& advances(pages, pages.len() - 1) ==> pages.len() == MAX_PAGES
}

proof fn lemma_ids_run(
    stream: Seq<char>,
    xt: Option<Seq<char>>,
    pages: Seq<IdListView>,
    n: int,
)
    requires
        0 <= n < MAX_PAGES,
        n <= pages.len(),
        forall|k: int| 0 <= k < n ==> #[trigger] advances(pages, k),
    ensures
        ({
            let pager = IdPagerView::start(stream, xt).run(pages.take(n));
            &&& pager.stream == stream
            &&& pager.xt == xt
            &&& pager.left == MAX_PAGES - n
            &&& pager.offset == if n == 0 {
                None
            } else {
                pages[n - 1].continuation
            }
        }),
    decreases n,
{
    if n > 0 {
        lemma_ids_run(stream, xt, pages, n - 1);
        assert(pages.take(n).drop_last() =~= pages.take(n - 1));
        assert(advances(pages, n - 1));
    }
}

/// The first request for ids carries no offset, and each one after it the offset
/// that the page before named. The reading ends at the first page that names no
/// later offset, or with the last page that may be read; and exactly such pages
/// are read, whatever the server puts on them.
pub proof fn law_ids_read_in_order(
    stream: Seq<char>,
    xt: Option<Seq<char>>,
    pages: Seq<IdListView>,
    session: SessionView,
)
    ensures
        IdPagerView::start(stream, xt).reads(pages) <==> ids_chained(pages),
        ids_chained(pages) ==> forall|k: int|
            #![trigger pages.take(k)]
            0 <= k < pages.len() ==> IdPagerView::start(stream, xt).run(pages.take(k)).call(session)
                == session.ids_call(
                stream,
                xt,
                if k == 0 {
                    None
                } else {
                    pages[k - 1].continuation
                },
            ),
{
    let start = IdPagerView::start(stream, xt);
    let len = pages.len() as int;
    assert(pages.take(len) =~= pages);
    if start.reads(pages) {
        lemma_reads_chained(stream, xt, pages, len - 1);
        lemma_ids_run(stream, xt, pages, len - 1);
        assert(pages.drop_last() =~= pages.take(len - 1));
    }
    if ids_chained(pages) {
        assert forall|k: int| #![trigger pages.take(k)] 0 <= k < len implies !start.run(
            pages.take(k),
        ).done() && start.run(pages.take(k)).call(session) == session.ids_call(
            stream,
            xt,
            if k == 0 {
                None
            } else {
                pages[k - 1].continuation
            },
        ) by {
            lemma_ids_run(stream, xt, pages, k);
        }
        assert(pages.drop_last() =~= pages.take(len - 1));
        lemma_ids_run(stream, xt, pages, len - 1);
    }
}

proof fn lemma_reads_chained(
    stream: Seq<char>,
    xt: Option<Seq<char>>,
    pages: Seq<IdListView>,
    n: int,
)
    requires
        IdPagerView::start(stream, xt).reads(pages),
        n < pages.len(),
    ensures
        pages.len() > 0,
        n < MAX_PAGES,
        forall|k: int| 0 <= k < n ==> #[trigger] advances(pages, k),
    decreases n,
{
    let start = IdPagerView::start(stream, xt);
    if n > 0 {
        lemma_reads_chained(stream, xt, pages, n - 1);
        lemma_ids_run(stream, xt, pages, n - 1);
        assert(pages.take(n).drop_last() =~= pages.take(n - 1));
        assert(!start.run(pages.take(n)).done());
        assert(advances(pages, n - 1));
    }
}

/// The page that begins at `offset` of a stream of ids that is served in pages of
/// `size`. At the end of the stream `end` takes the place of a next offset.
pub open spec fn page_at(
    all: Seq<Seq<char>>,
    size: nat,
    end: Option<usize>,
    offset: nat,
) -> IdListView {
    if offset + size < all.len() {
        IdListView {
            item_refs: all.subrange(offset as int, (offset + size) as int),
            continuation: Some((offset + size) as usize),
        }
    } else {
        IdListView { item_refs: all.skip(offset as int), continuation: end }
    }
}

/// After the answers to the first `n` requests, each with the page that the
/// request asks for.
pub open spec fn served(
    start: IdPagerView,
    all: Seq<Seq<char>>,
    size: nat,
    end: Option<usize>,
    n: nat,
) -> IdPagerView
    decreases n,
{
    if n == 0 {
        start
    } else {
        let before = served(start, all, size, end, (n - 1) as nat);
        if before.done() {
            before
        } else {
            before.take_page(page_at(all, size, end, offset_or_zero(before.offset) as nat))
        }
    }
}

proof fn lemma_served(
    stream: Seq<char>,
    xt: Option<Seq<char>>,
    all: Seq<Seq<char>>,
    size: nat,
    end: Option<usize>,
    n: nat,
)
    requires
        size > 0,
        all.len() <= usize::MAX,
        end is None || end == Some(0usize),
        n <= MAX_PAGES,
    ensures
        ({
            let pager = served(IdPagerView::start(stream, xt), all, size, end, n);
            if n < MAX_PAGES && (n == 0 || n * size < all.len()) {
                &&& pager.left == MAX_PAGES - n
                &&& offset_or_zero(pager.offset) == n * size
                &&& pager.ids == all.take((n * size) as int)
            } else {
                &&& pager.done()
                &&& pager.ids == if n * size < all.len() {
                    all.take((n * size) as int)
                } else {
                    all
                }
            }
        }),
    decreases n,
{
    let start = IdPagerView::start(stream, xt);
    if n == 0 {
        assert(n * size == 0) by (nonlinear_arith)
            requires
                n == 0,
        ;
        assert(all.take(0) =~= Seq::<Seq<char>>::empty());
    } else {
        let m = (n - 1) as nat;
        lemma_served(stream, xt, all, size, end, m);
        let before = served(start, all, size, end, m);
        assert(n * size == m * size + size) by (nonlinear_arith)
            requires
                n == m + 1,
        ;
        assert(m * size >= 0) by (nonlinear_arith);
        if !before.done() {
            let offset = (m * size) as nat;
            if offset + size < all.len() {
                assert(all.take(offset as int) + all.subrange(offset as int, (offset + size) as int)
                    =~= all.take((offset + size) as int));
            } else {
                if m == 0 {
                    assert(m * size == 0) by (nonlinear_arith)
                        requires
                            m == 0,
                    ;
                }
                assert(all.take(offset as int) + all.skip(offset as int) =~= all);
            }
        }
    }
}

/// A stream of ids is read whole, in order, as far as the page limit reaches,
/// whether the server ends it with no continuation or with zero.
pub proof fn law_ids_read_whole(
    stream: Seq<char>,
    xt: Option<Seq<char>>,
    all: Seq<Seq<char>>,
    size: nat,
    end: Option<usize>,
)
    requires
        size > 0,
        all.len() <= usize::MAX,
        end is None || end == Some(0usize),
    ensures
        ({
            let pager = served(IdPagerView::start(stream, xt), all, size, end, MAX_PAGES as nat);
            &&& pager.done()
            &&& all.len() <= MAX_PAGES * size ==> pager.ids == all
            &&& all.len() > MAX_PAGES * size ==> pager.ids == all.take(MAX_PAGES * size)
        }),
{
    lemma_served(stream, xt, all, size, end, MAX_PAGES as nat);
}

impl StreamPagerView {
    /// After the pages, as far as they are asked for.
    pub open spec fn run(self, pages: Seq<ContentsView>) -> StreamPagerView
        decreases pages.len(),
    {
        if pages.len() == 0 {
            self
        } else {
            let before = self.run(pages.drop_last());
            if before.done() {
                before
            } else {
                before.take_page(pages.last())
            }
        }
    }
}

impl StreamPagerView {
    /// The pages are those that are asked for until the end is reached.
    pub open spec fn reads(self, pages: Seq<ContentsView>) -> bool {
        &&& self.run(pages).done()
        &&& forall|k: int| 0 <= k < pages.len() ==> !self.run(#[trigger] pages.take(k)).done()
    }
}

/// The items of the pages, in order.
pub open spec fn all_items(pages: Seq<ContentsView>) -> Seq<ItemView>
    decreases pages.len(),
{
    if pages.len() == 0 {
        Seq::empty()
    } else {
        all_items(pages.drop_last()) + pages.last().items
    }
}

/// The items of all pages that are read are kept, in order.
pub proof fn law_items_kept(pager: StreamPagerView, pages: Seq<ContentsView>)
    requires
        pager.reads(pages),
    ensures
        pager.run(pages).items == pager.items + all_items(pages),
{
    lemma_items_kept(pager, pages, pages.len() as int);
    assert(pages.take(pages.len() as int) =~= pages);
}

proof fn lemma_items_kept(pager: StreamPagerView, pages: Seq<ContentsView>, n: int)
    requires
        pager.reads(pages),
        0 <= n <= pages.len(),
    ensures
        pager.run(pages.take(n)).items == pager.items + all_items(pages.take(n)),
    decreases n,
{
    if n > 0 {
        lemma_items_kept(pager, pages, n - 1);
        assert(pages.take(n).drop_last() =~= pages.take(n - 1));
        assert(pager.run(pages.take(n)).items =~= pager.items + all_items(pages.take(n)));
    } else {
        assert(pager.items + all_items(pages.take(0)) =~= pager.items);
    }
}

/// No more pages are read than a pager may still read, whatever the server
/// answers: from the start, at most [`MAX_PAGES`].
pub proof fn law_stream_ends(pager: StreamPagerView, pages: Seq<ContentsView>)
    ensures
        pages.len() >= pager.left ==> pager.run(pages).done(),
        !pager.run(pages).done() ==> pager.run(pages).left + pages.len() == pager.left,
    decreases pages.len(),
{
    if pages.len() > 0 {
        law_stream_ends(pager, pages.drop_last());
    }
}

/// The pages are the first of one stream: each but the last names the next, and
/// the last is the last of the stream or of those that may be read.
pub open spec fn chained(pages: Seq<ContentsView>) -> bool {
    &&& 0 < pages.len() <= MAX_PAGES
    &&& forall|k: int| 0 <= k < pages.len() - 1 ==> has_more(#[trigger] pages[k])
    &&& has_more(pages.last()) ==> pages.len() == MAX_PAGES
}

proof fn lemma_stream_run(stream: Seq<char>, xt: Option<Seq<char>>, pages: Seq<ContentsView>)
    requires
        pages.len() < MAX_PAGES,
        forall|k: int| 0 <= k < pages.len() ==> has_more(#[trigger] pages[k]),
    ensures
        ({
            let pager = StreamPagerView::start(stream, xt).run(pages);
            &&& pager.stream == stream
            &&& pager.xt == xt
            &&& pager.left == MAX_PAGES - pages.len()
            &&& pager.items == all_items(pages)
            &&& pager.continuation == if pages.len() == 0 {
                None
            } else {
                pages.last().continuation
            }
        }),
    decreases pages.len(),
{
    if pages.len() > 0 {
        assert(pages[pages.len() - 1] == pages.last());
        lemma_stream_run(stream, xt, pages.drop_last());
    }
}

/// A stream of items is read page by page as far as the page limit reaches, and
/// the request for each page carries the token that the page before named.
pub proof fn law_stream_read_in_order(
    stream: Seq<char>,
    xt: Option<Seq<char>>,
    pages: Seq<ContentsView>,
    session: SessionView,
)
    requires
        chained(pages),
    ensures
        StreamPagerView::start(stream, xt).reads(pages),
        StreamPagerView::start(stream, xt).run(pages).items == all_items(pages),
        forall|k: int|
            #![trigger pages.take(k)]
            0 <= k < pages.len() ==> StreamPagerView::start(stream, xt).run(pages.take(k)).call(
                session,
            ) == session.stream_call(
                stream,
                xt,
                if k == 0 {
                    None
                } else {
                    pages[k - 1].continuation
                },
            ),
{
    let start = StreamPagerView::start(stream, xt);
    assert forall|k: int| #![trigger pages.take(k)] 0 <= k < pages.len() implies !start.run(
        pages.take(k),
    ).done() && start.run(pages.take(k)).call(session) == session.stream_call(
        stream,
        xt,
        if k == 0 {
            None
        } else {
            pages[k - 1].continuation
        },
    ) by {
        lemma_stream_run(stream, xt, pages.take(k));
        if k > 0 {
            assert(pages.take(k).last() == pages[k - 1]);
        }
    }
    assert(pages.drop_last() =~= pages.take(pages.len() - 1));
    lemma_stream_run(stream, xt, pages.drop_last());
}

/// No more than fifty pages are read of a stream.
pub proof fn law_page_limit(stream: Seq<char>, xt: Option<Seq<char>>)
    ensures
        MAX_PAGES == 50,
        IdPagerView::start(stream, xt) == (IdPagerView {
            stream,
            xt,
            offset: None,
            left: 50,
            ids: Seq::empty(),
        }),
        StreamPagerView::start(stream, xt) == (StreamPagerView {
            stream,
            xt,
            continuation: None,
            left: 50,
            items: Seq::empty(),
        }),
{
}

/// A page of ids is added to what was read. The reading goes on exactly where more
/// pages may be read and the page names an offset that is larger than the one it
/// was asked for with, and then from there.
pub proof fn law_id_page_taken(pager: IdPagerView, page: IdListView, session: SessionView)
    ensures
        pager.take_page(page).ids == pager.ids + page.item_refs,
        pager.take_page(page).stream == pager.stream,
        pager.take_page(page).xt == pager.xt,
        !pager.take_page(page).done() <==> pager.left > 1 && page.continuation is Some && (
        match pager.offset {
            Some(offset) => page.continuation->0 > offset,
            None => page.continuation->0 > 0,
        }),
        !pager.take_page(page).done() ==> pager.take_page(page).left == pager.left - 1
            && pager.take_page(page).call(session) == session.ids_call(
            pager.stream,
            pager.xt,
            page.continuation,
        ),
{
}

/// A page of items is added to what was read. The reading goes on exactly where
/// more pages may be read and the page names a token that is not empty, and then
/// with that token.
pub proof fn law_item_page_taken(pager: StreamPagerView, page: ContentsView, session: SessionView)
    ensures
        pager.take_page(page).items == pager.items + page.items,
        pager.take_page(page).stream == pager.stream,
        pager.take_page(page).xt == pager.xt,
        !pager.take_page(page).done() <==> pager.left > 1 && page.continuation is Some
            && page.continuation->0.len() > 0,
        !pager.take_page(page).done() ==> pager.take_page(page).left == pager.left - 1
            && pager.take_page(page).call(session) == session.stream_call(
            pager.stream,
            pager.xt,
            page.continuation,
        ),
{
}

/// A continuation is a whole number, a text that writes one, null, or an empty
/// text; the last two end the stream, and everything else is an error of its kind.
pub proof fn law_continuation_read(value: JsonView)
    ensures
        match value {
            JsonView::Null => value.offset() == Ok::<Option<usize>, ContinuationError>(None),
            JsonView::Number(Some(n)) => n <= usize::MAX ==> value.offset() == Ok::<
                Option<usize>,
                ContinuationError,
            >(Some(n as usize)),
            JsonView::Number(None) => value.offset() == Err::<Option<usize>, ContinuationError>(
                ContinuationError::NotAnOffset,
            ),
            JsonView::Text(s) => if s.len() == 0 {
                value.offset() == Ok::<Option<usize>, ContinuationError>(None)
            } else if text::decimal_value(s) is Some && text::decimal_value(s)->0 <= usize::MAX {
                value.offset() == Ok::<Option<usize>, ContinuationError>(
                    Some(text::decimal_value(s)->0 as usize),
                )
            } else {
                value.offset() == Err::<Option<usize>, ContinuationError>(
                    ContinuationError::NotANumber,
                )
            },
            JsonView::Bool(_) | JsonView::List | JsonView::Record => value.offset() == Err::<
                Option<usize>,
                ContinuationError,
            >(ContinuationError::Unexpected),
        },
{
}

}
