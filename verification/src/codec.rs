//! The wire protocol codec.
//!
//! A connection carries exactly one request, as ASCII bytes with
//! newline-terminated lines and no length framing:
//!
//! - `poll\n{cookie}\n` — return output only if new since this cookie's last
//!   poll;
//! - `get\n{cookie}\n` — return the best-known output unconditionally;
//! - `exit\n` — shut the daemon down.
//!
//! A cookie is one or more ASCII letters or digits.  Parsing is incremental:
//! fed the bytes received so far, [`request`] answers `Parsed` (with how many
//! bytes the request took), `NeedMoreBytes` (the bytes so far are a prefix of
//! a request, keep reading), or `Malformed` (no request can begin here, drop
//! the connection).  The three request forms are tried in order: a prefix
//! that could still grow into an earlier form is reported `NeedMoreBytes`
//! before a later form is considered.

use vstd::prelude::*;

use crate::is_alnum_byte;
use crate::alnum_byte;

verus! {

/// A client-chosen identity token: the long-poll deduplication key, which
/// doubles as the shared access secret of one daemon instance.  On the wire
/// it is one or more ASCII letters or digits.
pub struct GenieCookie(pub Vec<u8>);

impl View for GenieCookie {
    type V = Seq<u8>;

    open spec fn view(&self) -> Seq<u8> {
        self.0@
    }
}

/// One request, as the codec hands it to the server.
pub enum Request {
    Poll(GenieCookie),
    Get(GenieCookie),
    Exit,
}

/// The mathematical shape of a request: each cookie as its byte sequence.
pub enum ReqView {
    Poll(Seq<u8>),
    Get(Seq<u8>),
    Exit,
}

impl View for Request {
    type V = ReqView;

    open spec fn view(&self) -> ReqView {
        match self {
            Request::Poll(c) => ReqView::Poll(c@),
            Request::Get(c) => ReqView::Get(c@),
            Request::Exit => ReqView::Exit,
        }
    }
}

/// What feeding a byte prefix to the codec yields: a parsed request together
/// with the number of bytes it consumed, a report that the prefix is
/// incomplete, or a report that no request can start with these bytes.
pub enum ParseOutcome {
    Parsed(Request, usize),
    NeedMoreBytes,
    Malformed,
}

/// The mathematical shape of a [`ParseOutcome`].
pub enum OutcomeView {
    Parsed(ReqView, int),
    NeedMoreBytes,
    Malformed,
}

impl View for ParseOutcome {
    type V = OutcomeView;

    open spec fn view(&self) -> OutcomeView {
        match self {
            ParseOutcome::Parsed(r, n) => OutcomeView::Parsed(r@, *n as int),
            ParseOutcome::NeedMoreBytes => OutcomeView::NeedMoreBytes,
            ParseOutcome::Malformed => OutcomeView::Malformed,
        }
    }
}

/// The bytes of the `poll` request's first line, newline included.
pub open spec fn poll_tag() -> Seq<u8> {
    seq![('p' as u8), ('o' as u8), ('l' as u8), ('l' as u8), 10u8]
}

/// The bytes of the `get` request's first line, newline included.
pub open spec fn get_tag() -> Seq<u8> {
    seq![('g' as u8), ('e' as u8), ('t' as u8), 10u8]
}

/// The bytes of the `exit` request, newline included.
pub open spec fn exit_tag() -> Seq<u8> {
    seq![('e' as u8), ('x' as u8), ('i' as u8), ('t' as u8), 10u8]
}

/// True when `i` and `t` agree on every position both of them have: `i`
/// neither proves nor refutes the tag until it is long enough.
pub open spec fn prefix_agrees(i: Seq<u8>, t: Seq<u8>) -> bool {
    forall|k: int| 0 <= k < i.len() && k < t.len() ==> i[k] == t[k]
}

/// Length of the run of ASCII-alphanumeric bytes in `i` that starts at `p`.
pub open spec fn alnum_run_len(i: Seq<u8>, p: int) -> int
    decreases i.len() - p,
{
    if p < 0 || p >= i.len() || !is_alnum_byte(i[p]) {
        0
    } else {
        1 + alnum_run_len(i, p + 1)
    }
}

/// What one request form makes of the input: the cookie's bytes and the
/// total bytes consumed, a request to read more, or a mismatch.
pub enum BranchView {
    Done(Seq<u8>, int),
    More,
    Bad,
}

/// The cookie line, parsed at position `p` of `i` (just past a tag): a
/// nonempty alphanumeric run, then a newline.  While the input ends inside
/// the run the outcome is `More` — the run's end is not yet known.
pub open spec fn cookie_after(i: Seq<u8>, p: int) -> BranchView {
    if i.len() <= p {
        BranchView::More
    } else if !is_alnum_byte(i[p]) {
        BranchView::Bad
    } else {
        let r = alnum_run_len(i, p);
        if p + r == i.len() {
            BranchView::More
        } else if i[p + r] == 10u8 {
            BranchView::Done(i.subrange(p, p + r), p + r + 1)
        } else {
            BranchView::Bad
        }
    }
}

/// A `poll`- or `get`-shaped request: the tag `t`, then a cookie line.
pub open spec fn cookie_branch(i: Seq<u8>, t: Seq<u8>) -> BranchView {
    if !prefix_agrees(i, t) {
        BranchView::Bad
    } else if i.len() < t.len() {
        BranchView::More
    } else {
        cookie_after(i, t.len() as int)
    }
}

/// The `exit` request: the tag alone.  The cookie seat of `Done` is empty.
pub open spec fn exit_branch(i: Seq<u8>) -> BranchView {
    if !prefix_agrees(i, exit_tag()) {
        BranchView::Bad
    } else if i.len() < exit_tag().len() {
        BranchView::More
    } else {
        BranchView::Done(Seq::empty(), exit_tag().len() as int)
    }
}

/// What the codec makes of the bytes received so far: `poll`, `get` and
/// `exit` are tried in that order, and a form that answers `More` stops the
/// search — the input may still grow into it.
pub open spec fn spec_request(i: Seq<u8>) -> OutcomeView {
    match cookie_branch(i, poll_tag()) {
        BranchView::Done(c, n) => OutcomeView::Parsed(ReqView::Poll(c), n),
        BranchView::More => OutcomeView::NeedMoreBytes,
        BranchView::Bad => match cookie_branch(i, get_tag()) {
            BranchView::Done(c, n) => OutcomeView::Parsed(ReqView::Get(c), n),
            BranchView::More => OutcomeView::NeedMoreBytes,
            BranchView::Bad => match exit_branch(i) {
                BranchView::Done(_, n) => OutcomeView::Parsed(ReqView::Exit, n),
                BranchView::More => OutcomeView::NeedMoreBytes,
                BranchView::Bad => OutcomeView::Malformed,
            },
        },
    }
}

enum TagStatus {
    Matched,
    More,
    Bad,
}

fn tag_status(i: &[u8], t: &[u8]) -> (r: TagStatus)
    ensures
        match r {
            TagStatus::Matched => prefix_agrees(i@, t@) && i@.len() >= t@.len(),
            TagStatus::More => prefix_agrees(i@, t@) && i@.len() < t@.len(),
            TagStatus::Bad => !prefix_agrees(i@, t@),
        },
{
    let n: usize = if i.len() < t.len() {
        i.len()
    } else {
        t.len()
    };
    let mut k: usize = 0;
    while k < n
        invariant
            n <= i@.len(),
            n <= t@.len(),
            n == if i@.len() < t@.len() {
                i@.len() as int
            } else {
                t@.len() as int
            },
            k <= n,
            forall|j: int| 0 <= j < k ==> i@[j] == t@[j],
        decreases n - k,
    {
        if i[k] != t[k] {
            return TagStatus::Bad;
        }
        k += 1;
    }
    if i.len() < t.len() {
        TagStatus::More
    } else {
        TagStatus::Matched
    }
}

enum Scan {
    Done(GenieCookie, usize),
    More,
    Bad,
}

impl View for Scan {
    type V = BranchView;

    closed spec fn view(&self) -> BranchView {
        match self {
            Scan::Done(c, n) => BranchView::Done(c@, *n as int),
            Scan::More => BranchView::More,
            Scan::Bad => BranchView::Bad,
        }
    }
}

proof fn lemma_alnum_run(i: Seq<u8>, p: int, e: int)
    requires
        0 <= p <= e <= i.len(),
        forall|j: int| p <= j < e ==> is_alnum_byte(i[j]),
        e == i.len() || !is_alnum_byte(i[e]),
    ensures
        alnum_run_len(i, p) == e - p,
    decreases e - p,
{
    if p < e {
        lemma_alnum_run(i, p + 1, e);
    }
}

/// The cookie line at position `p` of the input: a nonempty alphanumeric
/// run, then a newline.
fn genie_cookie(i: &[u8], p: usize) -> (r: Scan)
    requires
        p <= i@.len(),
    ensures
        r@ == cookie_after(i@, p as int),
{
    if p == i.len() {
        return Scan::More;
    }
    if !alnum_byte(i[p]) {
        return Scan::Bad;
    }
    let mut e: usize = p + 1;
    while e < i.len() && alnum_byte(i[e])
        invariant
            p < e <= i@.len(),
            forall|j: int| p <= j < e ==> is_alnum_byte(i@[j]),
        decreases i@.len() - e,
    {
        e += 1;
    }
    proof {
        lemma_alnum_run(i@, p as int, e as int);
    }
    if e == i.len() {
        return Scan::More;
    }
    if i[e] != 10u8 {
        return Scan::Bad;
    }
    let mut cookie: Vec<u8> = Vec::new();
    let mut j: usize = p;
    while j < e
        invariant
            p <= j <= e <= i@.len(),
            cookie@ == i@.subrange(p as int, j as int),
        decreases e - j,
    {
        cookie.push(i[j]);
        proof {
            assert(cookie@ =~= i@.subrange(p as int, j + 1 as int));
        }
        j += 1;
    }
    Scan::Done(GenieCookie(cookie), e + 1)
}

fn cookie_branch_exec(i: &[u8], t: &Vec<u8>) -> (r: Scan)
    ensures
        r@ == cookie_branch(i@, t@),
{
    match tag_status(i, t.as_slice()) {
        TagStatus::Bad => Scan::Bad,
        TagStatus::More => Scan::More,
        TagStatus::Matched => genie_cookie(i, t.len()),
    }
}

fn poll_tag_vec() -> (v: Vec<u8>)
    ensures
        v@ == poll_tag(),
{
    let mut v: Vec<u8> = Vec::new();
    v.push('p' as u8);
    v.push('o' as u8);
    v.push('l' as u8);
    v.push('l' as u8);
    v.push(10u8);
    proof {
        assert(v@ =~= poll_tag());
    }
    v
}

fn get_tag_vec() -> (v: Vec<u8>)
    ensures
        v@ == get_tag(),
{
    let mut v: Vec<u8> = Vec::new();
    v.push('g' as u8);
    v.push('e' as u8);
    v.push('t' as u8);
    v.push(10u8);
    proof {
        assert(v@ =~= get_tag());
    }
    v
}

fn exit_tag_vec() -> (v: Vec<u8>)
    ensures
        v@ == exit_tag(),
{
    let mut v: Vec<u8> = Vec::new();
    v.push('e' as u8);
    v.push('x' as u8);
    v.push('i' as u8);
    v.push('t' as u8);
    v.push(10u8);
    proof {
        assert(v@ =~= exit_tag());
    }
    v
}

/// Parse one request from the bytes received so far.
pub fn request(i: &[u8]) -> (r: ParseOutcome)
    ensures
        r@ == spec_request(i@),
{
    let poll_t = poll_tag_vec();
    match cookie_branch_exec(i, &poll_t) {
        Scan::Done(c, n) => ParseOutcome::Parsed(Request::Poll(c), n),
        Scan::More => ParseOutcome::NeedMoreBytes,
        Scan::Bad => {
            let get_t = get_tag_vec();
            match cookie_branch_exec(i, &get_t) {
                Scan::Done(c, n) => ParseOutcome::Parsed(Request::Get(c), n),
                Scan::More => ParseOutcome::NeedMoreBytes,
                Scan::Bad => {
                    let exit_t = exit_tag_vec();
                    match tag_status(i, exit_t.as_slice()) {
                        TagStatus::Matched => ParseOutcome::Parsed(
                            Request::Exit,
                            exit_t.len(),
                        ),
                        TagStatus::More => ParseOutcome::NeedMoreBytes,
                        TagStatus::Bad => ParseOutcome::Malformed,
                    }
                },
            }
        },
    }
}

/// Round-trip law: a `poll` message built for a nonempty alphanumeric
/// cookie parses back as exactly that request, consuming the whole message.
pub proof fn lemma_poll_round_trip(c: Seq<u8>)
    requires
        c.len() >= 1,
        forall|j: int| 0 <= j < c.len() ==> is_alnum_byte(c[j]),
    ensures
        spec_request(poll_tag() + c + seq![10u8]) == OutcomeView::Parsed(
            ReqView::Poll(c),
            poll_tag().len() + c.len() + 1 as int,
        ),
{
    let i = poll_tag() + c + seq![10u8];
    let p = poll_tag().len() as int;
    assert(prefix_agrees(i, poll_tag()));
    assert(forall|j: int| p <= j < p + c.len() ==> is_alnum_byte(#[trigger] i[j]));
    assert(i[p + c.len()] == 10u8);
    assert(!is_alnum_byte(10u8));
    lemma_alnum_run(i, p, p + c.len());
    assert(i.subrange(p, p + c.len()) =~= c);
}

/// Round-trip law: a `get` message built for a nonempty alphanumeric cookie
/// parses back as exactly that request, consuming the whole message.
pub proof fn lemma_get_round_trip(c: Seq<u8>)
    requires
        c.len() >= 1,
        forall|j: int| 0 <= j < c.len() ==> is_alnum_byte(c[j]),
    ensures
        spec_request(get_tag() + c + seq![10u8]) == OutcomeView::Parsed(
            ReqView::Get(c),
            get_tag().len() + c.len() + 1 as int,
        ),
{
    let i = get_tag() + c + seq![10u8];
    let p = get_tag().len() as int;
    assert(!prefix_agrees(i, poll_tag())) by {
        assert(i[0] != poll_tag()[0]);
    }
    assert(prefix_agrees(i, get_tag()));
    assert(forall|j: int| p <= j < p + c.len() ==> is_alnum_byte(#[trigger] i[j]));
    assert(i[p + c.len()] == 10u8);
    assert(!is_alnum_byte(10u8));
    lemma_alnum_run(i, p, p + c.len());
    assert(i.subrange(p, p + c.len()) =~= c);
}

/// Round-trip law: the `exit` message parses back as the `exit` request,
/// consuming the whole message.
pub proof fn lemma_exit_round_trip()
    ensures
        spec_request(exit_tag()) == OutcomeView::Parsed(
            ReqView::Exit,
            exit_tag().len() as int,
        ),
{
    let i = exit_tag();
    assert(!prefix_agrees(i, poll_tag())) by {
        assert(i[0] != poll_tag()[0]);
    }
    assert(!prefix_agrees(i, get_tag())) by {
        assert(i[0] != get_tag()[0]);
    }
    assert(prefix_agrees(i, exit_tag()));
}

/// The bytes a client sends to make a `poll` request with this cookie.
pub fn poll_message(cookie: &GenieCookie) -> (v: Vec<u8>)
    ensures
        v@ == poll_tag() + cookie@ + seq![10u8],
{
    let mut v = poll_tag_vec();
    v.extend_from_slice(cookie.0.as_slice());
    v.push(10u8);
    proof {
        assert(v@ =~= poll_tag() + cookie@ + seq![10u8]);
    }
    v
}

/// The bytes a client sends to make a `get` request with this cookie.
pub fn get_message(cookie: &GenieCookie) -> (v: Vec<u8>)
    ensures
        v@ == get_tag() + cookie@ + seq![10u8],
{
    let mut v = get_tag_vec();
    v.extend_from_slice(cookie.0.as_slice());
    v.push(10u8);
    proof {
        assert(v@ =~= get_tag() + cookie@ + seq![10u8]);
    }
    v
}

/// The bytes a client sends to make an `exit` request.
pub fn exit_message() -> (v: Vec<u8>)
    ensures
        v@ == exit_tag(),
{
    exit_tag_vec()
}

} // verus!
