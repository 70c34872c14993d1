//! Paginated listing of branch names.
//!
//! A [`BranchLister`] says which page to ask for next, and takes each answer
//! in turn: it accumulates the names in page order and decides whether the
//! listing goes on, is complete, or has failed. Sending the requests is left
//! to the caller, which feeds every response back through
//! [`BranchLister::on_response`].
use vstd::prelude::*;
use crate::select::names_view;
use vstd::arithmetic::div_mod::lemma_fundamental_div_mod_converse;

verus! {

/// Number of branch names asked for in each page request.
pub const PAGE_SIZE: u64 = 100;

/// Client name sent with every request.
pub const USER_AGENT: &'static str = "zfs-updater";

/// Why a listing failed. Any failure discards the names gathered so far.
#[derive(Debug, Clone, Copy, PartialEq, Eq, Structural)]
pub enum FetchError {
    /// The request could not be sent, or the connection failed.
    Transport,
    /// The server answered with this non-success status.
    UpstreamStatus(u16),
    /// The body was not a list of objects that each carry a `name`.
    MalformedResponse,
}

/// What came back for one page request.
pub enum PageResponse {
    /// The request could not be sent, or the connection failed.
    TransportFailed,
    /// The server answered with `status`; `names` holds the branch names of
    /// the body in order, or `None` where the body has not the expected shape.
    Received { status: u16, names: Option<Vec<String>> },
}

/// The mathematical content of a [`PageResponse`].
pub enum ResponseView {
    TransportFailed,
    Received { status: u16, names: Option<Seq<Seq<char>>> },
}

impl View for PageResponse {
    type V = ResponseView;

    open spec fn view(&self) -> ResponseView {
        match self {
            PageResponse::TransportFailed => ResponseView::TransportFailed,
            PageResponse::Received { status, names } => ResponseView::Received {
                status: *status,
                names: match names {
                    Some(v) => Some(names_view(v@)),
                    None => None,
                },
            },
        }
    }
}

/// One page request: the page number, counted from 1, the page size, and the
/// value of the `Authorization` header where a credential is configured.
pub struct PageRequest {
    pub page: u64,
    pub per_page: u64,
    pub authorization: Option<String>,
}

/// The `Authorization` header value for credential `token`.
pub open spec fn authorization_value(token: Seq<char>) -> Seq<char> {
    "token "@ + token
}

/// A 2xx status.
pub open spec fn is_success(status: u16) -> bool {
    200 <= status <= 299
}

/// The state of a listing in progress: the next page to ask for and the
/// names gathered so far.
pub struct ListerState {
    pub page: nat,
    pub seen: Seq<Seq<char>>,
}

/// Where a listing stands after a response.
pub enum ListingView {
    Continue(ListerState),
    Done(Seq<Seq<char>>),
    Failed(FetchError),
}

/// The state before any request.
pub open spec fn initial_state() -> ListerState {
    ListerState { page: 1, seen: Seq::empty() }
}

/// The effect of one response on the listing.
///
/// A page with fewer names than [`PAGE_SIZE`], an empty one included, ends
/// the listing; a full page asks for the next one.
pub open spec fn step(st: ListerState, response: ResponseView) -> ListingView {
    match response {
        ResponseView::TransportFailed => ListingView::Failed(FetchError::Transport),
        ResponseView::Received { status, names } => {
            if !is_success(status) {
                ListingView::Failed(FetchError::UpstreamStatus(status))
            } else {
                match names {
                    None => ListingView::Failed(FetchError::MalformedResponse),
                    Some(ns) => if ns.len() < PAGE_SIZE {
                        ListingView::Done(st.seen + ns)
                    } else {
                        ListingView::Continue(ListerState { page: st.page + 1, seen: st.seen + ns })
                    },
                }
            }
        },
    }
}

/// Where a listing stands after `responses`, taken in order from the initial
/// state. Responses after the listing has ended change nothing.
pub open spec fn run(responses: Seq<ResponseView>) -> ListingView
    decreases responses.len(),
{
    if responses.len() == 0 {
        ListingView::Continue(initial_state())
    } else {
        match run(responses.drop_last()) {
            ListingView::Continue(st) => step(st, responses.last()),
            ended => ended,
        }
    }
}

/// A listing in progress.
pub struct BranchLister {
    page: u64,
    names: Vec<String>,
}

/// The outcome of feeding one response to a [`BranchLister`].
pub enum ListStep {
    /// The page was full: ask for the next one.
    Continue(BranchLister),
    /// The listing is complete: every name, in page order.
    Done(Vec<String>),
    /// The listing failed; nothing gathered is kept.
    Failed(FetchError),
}

impl View for BranchLister {
    type V = ListerState;

    closed spec fn view(&self) -> ListerState {
        ListerState { page: self.page as nat, seen: names_view(self.names@) }
    }
}

impl View for ListStep {
    type V = ListingView;

    open spec fn view(&self) -> ListingView {
        match self {
            ListStep::Continue(l) => ListingView::Continue(l@),
            ListStep::Done(v) => ListingView::Done(names_view(v@)),
            ListStep::Failed(e) => ListingView::Failed(*e),
        }
    }
}

impl BranchLister {
    /// Every page before the current one was full.
    #[verifier::type_invariant]
    spec fn full_pages_before(&self) -> bool {
        &&& self.page >= 1
        &&& self.names@.len() >= (self.page - 1) * PAGE_SIZE
    }

    /// A listing that has asked for nothing yet.
    pub fn new() -> (r: BranchLister)
        ensures
            r@ == initial_state(),
    {
        let r = BranchLister { page: 1, names: Vec::new() };
        proof {
            assert(r@.seen =~= Seq::<Seq<char>>::empty());
        }
        r
    }

    /// The page to ask for next, counted from 1.
    pub fn page(&self) -> (r: u64)
        ensures
            r == self@.page,
    {
        self.page
    }

    /// The request for the next page, with an `Authorization` header where
    /// `credential` is given.
    pub fn request(&self, credential: Option<&str>) -> (r: PageRequest)
        ensures
            r.page == self@.page,
            r.per_page == PAGE_SIZE,
            credential is None ==> r.authorization is None,
            credential matches Some(t) ==> r.authorization matches Some(a)
                && a@ == authorization_value(t@),
    {
        let authorization = match credential {
            Some(t) => {
                let mut a = String::from_str("token ");
                a.append(t);
                Some(a)
            },
            None => None,
        };
        PageRequest { page: self.page, per_page: PAGE_SIZE, authorization }
    }

    /// Takes the response to the request for the current page.
    pub fn on_response(self, response: PageResponse) -> (r: ListStep)
        ensures
            r@ == step(self@, response@),
    {
        proof {
            use_type_invariant(&self);
        }
        match response {
            PageResponse::TransportFailed => ListStep::Failed(FetchError::Transport),
            PageResponse::Received { status, names } => {
                if status < 200 || status > 299 {
                    ListStep::Failed(FetchError::UpstreamStatus(status))
                } else {
                    match names {
                        None => ListStep::Failed(FetchError::MalformedResponse),
                        Some(batch) => {
                            let mut batch = batch;
                            let full = batch.len() as u64 >= PAGE_SIZE;
                            let mut all = self.names;
                            let ghost before = all@;
                            let ghost added = batch@;
                            all.append(&mut batch);
                            proof {
                                assert(names_view(all@) =~= names_view(before) + names_view(added));
                            }
                            if full {
                                // The names held bound the page number, so it cannot overflow.
                                let total = all.len();
                                let ghost p = self.page as int;
                                let ghost n = total as int;
                                assert(n >= p * 100) by (nonlinear_arith)
                                    requires
                                        n >= (p - 1) * 100 + 100,
                                ;
                                assert(p < u64::MAX) by (nonlinear_arith)
                                    requires
                                        n >= p * 100,
                                        n <= u64::MAX,
                                        p >= 1,
                                ;
                                let next = BranchLister { page: self.page + 1, names: all };
                                ListStep::Continue(next)
                            } else {
                                ListStep::Done(all)
                            }
                        },
                    }
                }
            },
        }
    }
}

/// A 2xx response whose body was read as a list of names.
pub open spec fn is_page(response: ResponseView) -> bool {
    response matches ResponseView::Received { status, names: Some(_) } && is_success(status)
}

/// The names that `response` carries; none for a failed one.
pub open spec fn page_names(response: ResponseView) -> Seq<Seq<char>> {
    match response {
        ResponseView::Received { names: Some(ns), .. } => ns,
        _ => Seq::empty(),
    }
}

/// The names of all `responses`, page after page.
pub open spec fn all_names(responses: Seq<ResponseView>) -> Seq<Seq<char>>
    decreases responses.len(),
{
    if responses.len() == 0 {
        Seq::empty()
    } else {
        all_names(responses.drop_last()) + page_names(responses.last())
    }
}

/// Pages that are all full keep the listing going, with every name so far.
proof fn lemma_full_pages_continue(responses: Seq<ResponseView>)
    requires
        forall|i: int|
            0 <= i < responses.len() ==> is_page(#[trigger] responses[i]) && page_names(
                responses[i],
            ).len() == PAGE_SIZE,
    ensures
        run(responses) == ListingView::Continue(
            ListerState { page: responses.len() + 1, seen: all_names(responses) },
        ),
        all_names(responses).len() == responses.len() * PAGE_SIZE,
    decreases responses.len(),
{
    if responses.len() > 0 {
        let rest = responses.drop_last();
        assert forall|i: int| 0 <= i < rest.len() implies is_page(#[trigger] rest[i])
            && page_names(rest[i]).len() == PAGE_SIZE by {
            assert(rest[i] == responses[i]);
        }
        lemma_full_pages_continue(rest);
        assert(is_page(responses[responses.len() - 1]));
        assert(all_names(responses).len() == rest.len() * PAGE_SIZE + PAGE_SIZE);
        assert(responses.len() * PAGE_SIZE == rest.len() * PAGE_SIZE + PAGE_SIZE) by (nonlinear_arith)
            requires
                responses.len() == rest.len() + 1,
        ;
    }
}

/// Full pages followed by a short (possibly empty) one: the listing asks for
/// every one of them, page 1 first, then ends with all their names in order.
/// It makes `ceil(total / PAGE_SIZE)` requests, or one more when the last
/// page is empty.
pub proof fn lemma_pagination_collects_all(responses: Seq<ResponseView>)
    requires
        responses.len() >= 1,
        forall|i: int| 0 <= i < responses.len() ==> is_page(#[trigger] responses[i]),
        forall|i: int|
            0 <= i < responses.len() - 1 ==> page_names(#[trigger] responses[i]).len() == PAGE_SIZE,
        page_names(responses.last()).len() < PAGE_SIZE,
    ensures
        run(responses) == ListingView::Done(all_names(responses)),
        forall|k: int|
            0 <= k < responses.len() ==> run(#[trigger] responses.take(k)) == ListingView::Continue(
                ListerState { page: (k + 1) as nat, seen: all_names(responses.take(k)) },
            ),
        page_names(responses.last()).len() == 0 ==> responses.len() == (all_names(responses).len()
            as int) / (PAGE_SIZE as int) + 1,
        page_names(responses.last()).len() > 0 ==> responses.len() == (all_names(responses).len()
            + PAGE_SIZE - 1) as int / (PAGE_SIZE as int),
{
    let n = responses.len() as int;
    let rest = responses.drop_last();
    assert forall|k: int| 0 <= k < n implies run(#[trigger] responses.take(k))
        == ListingView::Continue(
        ListerState { page: (k + 1) as nat, seen: all_names(responses.take(k)) },
    ) by {
        let pre = responses.take(k);
        assert forall|i: int| 0 <= i < pre.len() implies is_page(#[trigger] pre[i]) && page_names(
            pre[i],
        ).len() == PAGE_SIZE by {
            assert(pre[i] == responses[i]);
        }
        lemma_full_pages_continue(pre);
    }
    assert(rest =~= responses.take(n - 1));
    lemma_full_pages_continue(rest);
    assert(is_page(responses[n - 1]));
    let m = page_names(responses.last()).len() as int;
    let total = all_names(responses).len() as int;
    assert(total == (n - 1) * 100 + m);
    if m == 0 {
        lemma_fundamental_div_mod_converse(total, 100, n - 1, 0);
    } else {
        lemma_fundamental_div_mod_converse(total + 99, 100, n, m - 1);
    }
}

/// A non-2xx status on any page ends the listing with that status as the
/// error, whatever pages came before; no names are returned.
pub proof fn lemma_error_status_aborts(responses: Seq<ResponseView>, status: u16)
    requires
        responses.len() >= 1,
        forall|i: int|
            0 <= i < responses.len() - 1 ==> is_page(#[trigger] responses[i]) && page_names(
                responses[i],
            ).len() == PAGE_SIZE,
        responses.last() matches ResponseView::Received { status: s, .. } && s == status,
        !is_success(status),
    ensures
        run(responses) == ListingView::Failed(FetchError::UpstreamStatus(status)),
{
    let rest = responses.drop_last();
    assert forall|i: int| 0 <= i < rest.len() implies is_page(#[trigger] rest[i]) && page_names(
        rest[i],
    ).len() == PAGE_SIZE by {
        assert(rest[i] == responses[i]);
    }
    lemma_full_pages_continue(rest);
}

} // verus!
