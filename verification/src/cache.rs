//! The result cache.
//!
//! A daemon holds the most recently produced snapshot (`latest`) plus, per
//! requesting cookie, a finger: the snapshot version that cookie was last
//! shown.  `poll` answers with the latest payload only when it is news to the
//! cookie, recording what was shown; `get` answers unconditionally with what
//! the cookie was last shown (or the latest, for a cookie that never
//! polled), and records nothing.  `update` replaces the latest snapshot; its
//! caller owns the iteration counter and supplies it monotonically
//! increasing — the cache itself checks no ordering.
//!
//! The whole behaviour is stated by the spec-level transition functions
//! [`poll_spec`], [`get_spec`] and [`update_spec`]; the executable methods
//! are proved equal to them, and the deduplication laws at the end of this
//! file are proved from them alone.

use vstd::prelude::*;
use vstd::pervasive::VecAdditionalExecFns;

use crate::codec::GenieCookie;
use crate::copy_bytes;
use crate::bytes_eq;

verus! {

/// A unit of cached supervisor output.  `dup` hands out an owned copy with
/// the same mathematical value, so a snapshot can sit in the latest slot and
/// in any number of fingers at once and is never mutated, only superseded.
pub trait Snapshot: DeepView + Sized {
    /// An owned copy with the same mathematical value.
    fn dup(&self) -> (r: Self)
        ensures
            r.deep_view() == self.deep_view(),
    ;
}

/// The mathematical state of a cache: the latest snapshot, if any, and the
/// fingers as a sequence of (cookie, iteration shown, payload shown), in the
/// order the cookies first polled.
#[verifier::ext_equal]
pub struct CacheView<V> {
    pub latest: Option<(u32, V)>,
    pub fingers: Seq<(Seq<u8>, u32, V)>,
}

/// What a poll reports: no snapshot exists yet, nothing new for this cookie,
/// or a payload that is news to it.
pub enum PollV<V> {
    NotAvailable,
    NoChange,
    Available(V),
}

/// Whether some finger is for cookie `c`.
pub open spec fn seq_has<V>(fs: Seq<(Seq<u8>, u32, V)>, c: Seq<u8>) -> bool {
    exists|k: int| 0 <= k < fs.len() && fs[k].0 == c
}

/// The position of cookie `c`'s finger (meaningful when `seq_has` holds;
/// unique when the cookies are distinct).
pub open spec fn seq_index_of<V>(fs: Seq<(Seq<u8>, u32, V)>, c: Seq<u8>) -> int {
    choose|k: int| 0 <= k < fs.len() && fs[k].0 == c
}

/// The iteration and payload cookie `c` was last shown.
pub open spec fn seq_entry<V>(fs: Seq<(Seq<u8>, u32, V)>, c: Seq<u8>) -> (u32, V) {
    let k = seq_index_of(fs, c);
    (fs[k].1, fs[k].2)
}

/// No two fingers are for the same cookie.
pub open spec fn seq_distinct<V>(fs: Seq<(Seq<u8>, u32, V)>) -> bool {
    forall|i: int, j: int| 0 <= i < j < fs.len() ==> fs[i].0 != fs[j].0
}

impl<V> CacheView<V> {
    /// Validity: one finger per cookie.
    pub open spec fn wf(self) -> bool {
        seq_distinct(self.fingers)
    }

    pub open spec fn has_finger(self, c: Seq<u8>) -> bool {
        seq_has(self.fingers, c)
    }

    pub open spec fn finger_of(self, c: Seq<u8>) -> (u32, V) {
        seq_entry(self.fingers, c)
    }
}

/// `update` unconditionally replaces the latest snapshot and touches no
/// finger.
pub open spec fn update_spec<V>(s: CacheView<V>, iteration: u32, payload: V) -> CacheView<V> {
    CacheView { latest: Some((iteration, payload)), fingers: s.fingers }
}

/// `poll`: nothing is reported while no snapshot exists.  Otherwise the
/// latest payload is news exactly when the cookie has no finger (a first
/// poll always reports the current state) or a finger at another iteration;
/// showing it records (cookie, iteration, payload).  A cookie whose finger
/// already sits at the latest iteration is told `NoChange` and its finger is
/// left untouched.
pub open spec fn poll_spec<V>(s: CacheView<V>, c: Seq<u8>) -> (PollV<V>, CacheView<V>) {
    match s.latest {
        None => (PollV::NotAvailable, s),
        Some((it, p)) => {
            if seq_has(s.fingers, c) {
                let k = seq_index_of(s.fingers, c);
                if s.fingers[k].1 == it {
                    (PollV::NoChange, s)
                } else {
                    (
                        PollV::Available(p),
                        CacheView { latest: s.latest, fingers: s.fingers.update(k, (c, it, p)) },
                    )
                }
            } else {
                (
                    PollV::Available(p),
                    CacheView { latest: s.latest, fingers: s.fingers.push((c, it, p)) },
                )
            }
        },
    }
}

/// `get`: the payload the cookie was last shown; the current latest for a
/// cookie that never polled; nothing when neither exists.  The state is not
/// touched.
pub open spec fn get_spec<V>(s: CacheView<V>, c: Seq<u8>) -> Option<V> {
    if seq_has(s.fingers, c) {
        Some(seq_entry(s.fingers, c).1)
    } else {
        match s.latest {
            None => None,
            Some((it, p)) => Some(p),
        }
    }
}

proof fn lemma_index_of_unique<V>(fs: Seq<(Seq<u8>, u32, V)>, c: Seq<u8>, i: int)
    requires
        seq_distinct(fs),
        0 <= i < fs.len(),
        fs[i].0 == c,
    ensures
        seq_has(fs, c),
        seq_index_of(fs, c) == i,
{
    assert(seq_has(fs, c));
    let k = seq_index_of(fs, c);
    assert(0 <= k < fs.len() && fs[k].0 == c);
    if k != i {
        if k < i {
            assert(fs[k].0 != fs[i].0);
        } else {
            assert(fs[i].0 != fs[k].0);
        }
        assert(false);
    }
}

/// A poll preserves validity: it touches at most the polling cookie's own
/// finger, and adds one only for a cookie that had none.
pub proof fn lemma_poll_spec_wf<V>(s: CacheView<V>, c: Seq<u8>)
    requires
        s.wf(),
    ensures
        poll_spec(s, c).1.wf(),
{
    match s.latest {
        None => {},
        Some((it, p)) => {
            if seq_has(s.fingers, c) {
                let k = seq_index_of(s.fingers, c);
                assert(0 <= k < s.fingers.len() && s.fingers[k].0 == c);
            } else {
                let fs1 = s.fingers.push((c, it, p));
                assert forall|i: int, j: int| 0 <= i < j < fs1.len() implies fs1[i].0 != fs1[j].0 by {
                    if j == fs1.len() - 1 {
                        assert(fs1[j].0 == c);
                        assert(fs1[i] == s.fingers[i]);
                        if fs1[i].0 == c {
                            assert(seq_has(s.fingers, c));
                        }
                    }
                }
            }
        },
    }
}

struct Finger<S> {
    cookie: Vec<u8>,
    iteration: u32,
    payload: S,
}

/// The per-daemon result cache.  It is shared, behind one lock, by the
/// connection server and the supervision engine; each operation is one pure
/// state transition, so the lock need never be held longer.
pub struct Cache<S> {
    latest: Option<(u32, S)>,
    fingers: Vec<Finger<S>>,
}

impl<S: DeepView> View for Cache<S> {
    type V = CacheView<<S as DeepView>::V>;

    closed spec fn view(&self) -> CacheView<<S as DeepView>::V> {
        CacheView {
            latest: match self.latest {
                None => None,
                Some((it, p)) => Some((it, p.deep_view())),
            },
            fingers: self.fingers@.map_values(
                |f: Finger<S>| (f.cookie@, f.iteration, f.payload.deep_view()),
            ),
        }
    }
}

/// What a poll reports, carrying an owned copy of the payload when it is
/// news.
pub enum PollOutcome<S> {
    NotAvailable,
    NoChange,
    Available(S),
}

impl<S: DeepView> View for PollOutcome<S> {
    type V = PollV<<S as DeepView>::V>;

    open spec fn view(&self) -> PollV<<S as DeepView>::V> {
        match self {
            PollOutcome::NotAvailable => PollV::NotAvailable,
            PollOutcome::NoChange => PollV::NoChange,
            PollOutcome::Available(p) => PollV::Available(p.deep_view()),
        }
    }
}

impl<S: Snapshot> Cache<S> {
    /// An empty cache: no snapshot yet, no cookie seen.
    pub fn new() -> (s: Self)
        ensures
            s@.wf(),
            s@.latest is None,
            s@.fingers.len() == 0,
    {
        Cache { latest: None, fingers: Vec::new() }
    }

    /// Replace the latest snapshot.  The caller supplies `iteration`
    /// monotonically increasing; no ordering is checked here.
    pub fn update(&mut self, iteration: u32, payload: S)
        ensures
            final(self)@ == update_spec(old(self)@, iteration, payload.deep_view()),
    {
        let ghost pv = payload.deep_view();
        self.latest = Some((iteration, payload));
        proof {
            assert(self@ =~= update_spec(old(self)@, iteration, pv));
        }
    }

    fn find_finger(&self, cookie: &Vec<u8>) -> (r: Option<usize>)
        ensures
            match r {
                Some(i) => 0 <= i < self@.fingers.len() && self@.fingers[i as int].0 == cookie@,
                None => !seq_has(self@.fingers, cookie@),
            },
    {
        let mut i: usize = 0;
        while i < self.fingers.len()
            invariant
                i <= self.fingers@.len(),
                self@.fingers.len() == self.fingers@.len(),
                forall|j: int| 0 <= j < i ==> self@.fingers[j].0 != cookie@,
            decreases self.fingers@.len() - i,
        {
            if bytes_eq(&self.fingers[i].cookie, cookie) {
                return Some(i);
            }
            i += 1;
        }
        None
    }

    /// Report the latest payload if it is news to this cookie, recording
    /// what was shown; `NoChange` if the cookie already saw this iteration;
    /// `NotAvailable` while no snapshot exists.
    pub fn poll(&mut self, cookie: &GenieCookie) -> (r: PollOutcome<S>)
        requires
            old(self)@.wf(),
        ensures
            final(self)@.wf(),
            r@ == poll_spec(old(self)@, cookie@).0,
            final(self)@ == poll_spec(old(self)@, cookie@).1,
    {
        proof {
            lemma_poll_spec_wf(old(self)@, cookie@);
        }
        let (it, pay) = match &self.latest {
            None => {
                return PollOutcome::NotAvailable;
            },
            Some((it, p)) => (*it, p.dup()),
        };
        let ghost s0 = self@;
        match self.find_finger(&cookie.0) {
            Some(i) => {
                proof {
                    lemma_index_of_unique(s0.fingers, cookie@, i as int);
                }
                if self.fingers[i].iteration == it {
                    PollOutcome::NoChange
                } else {
                    let entry = Finger {
                        cookie: copy_bytes(&cookie.0),
                        iteration: it,
                        payload: pay.dup(),
                    };
                    self.fingers.set(i, entry);
                    proof {
                        assert(self@.fingers =~= s0.fingers.update(
                            i as int,
                            (cookie@, it, pay.deep_view()),
                        ));
                        assert(self@ =~= poll_spec(s0, cookie@).1);
                    }
                    PollOutcome::Available(pay)
                }
            },
            None => {
                let entry = Finger {
                    cookie: copy_bytes(&cookie.0),
                    iteration: it,
                    payload: pay.dup(),
                };
                self.fingers.push(entry);
                proof {
                    assert(self@.fingers =~= s0.fingers.push((cookie@, it, pay.deep_view())));
                    assert(self@ =~= poll_spec(s0, cookie@).1);
                }
                PollOutcome::Available(pay)
            },
        }
    }

    /// The payload this cookie was last shown, or the current latest for a
    /// cookie that never polled.  Nothing is recorded: `get` takes `&self`
    /// and can move no finger.
    pub fn get(&self, cookie: &GenieCookie) -> (r: Option<S>)
        requires
            self@.wf(),
        ensures
            r.deep_view() == get_spec(self@, cookie@),
    {
        match self.find_finger(&cookie.0) {
            Some(i) => {
                proof {
                    lemma_index_of_unique(self@.fingers, cookie@, i as int);
                }
                Some(self.fingers[i].payload.dup())
            },
            None => match &self.latest {
                None => None,
                Some((_, p)) => Some(p.dup()),
            },
        }
    }
}

/// Dedup law: with no intervening `update`, a second poll of the same
/// cookie reports `NoChange` and moves nothing — so two consecutive polls
/// yield `Available` then `NoChange` whenever the first had news to show.
pub proof fn lemma_poll_dedup<V>(s: CacheView<V>, c: Seq<u8>)
    requires
        s.wf(),
        s.latest is Some,
    ensures
        ({
            let (r1, s1) = poll_spec(s, c);
            poll_spec(s1, c).0 is NoChange && poll_spec(s1, c).1 == s1
        }),
{
    let (r1, s1) = poll_spec(s, c);
    let (it, p) = s.latest->Some_0;
    if seq_has(s.fingers, c) {
        let k = seq_index_of(s.fingers, c);
        assert(0 <= k < s.fingers.len() && s.fingers[k].0 == c);
        if s.fingers[k].1 == it {
            lemma_index_of_unique(s1.fingers, c, k);
        } else {
            assert(s1.fingers[k].0 == c);
            lemma_index_of_unique(s1.fingers, c, k);
        }
    } else {
        let k = s.fingers.len() as int;
        assert(s1.fingers[k].0 == c);
        lemma_poll_spec_wf(s, c);
        lemma_index_of_unique(s1.fingers, c, k);
    }
}

/// First-poll law: a poll right after an `update` whose iteration is new to
/// the cookie always yields `Available` with the fresh payload — in
/// particular for any cookie that never polled before.  (A caller that
/// reuses the iteration a cookie was already shown — which the monotonicity
/// obligation on `update` rules out — would be told `NoChange` instead.)
pub proof fn lemma_first_poll_after_update<V>(
    s: CacheView<V>,
    c: Seq<u8>,
    iteration: u32,
    payload: V,
)
    requires
        s.wf(),
        s.has_finger(c) ==> s.finger_of(c).0 != iteration,
    ensures
        poll_spec(update_spec(s, iteration, payload), c).0 == PollV::Available(payload),
{
    let s1 = update_spec(s, iteration, payload);
    if seq_has(s1.fingers, c) {
        let k = seq_index_of(s1.fingers, c);
        assert(0 <= k < s1.fingers.len() && s1.fingers[k].0 == c);
    }
}

/// Get-independence law: `get` reaches no `NoChange` answer and moves no
/// state; it yields the cookie's last-polled payload, or the current latest
/// when the cookie never polled — in particular, right after a poll showed
/// payload `p`, a `get` of the same cookie yields `p` again.
pub proof fn lemma_get_independence<V>(s: CacheView<V>, c: Seq<u8>)
    requires
        s.wf(),
    ensures
        s.has_finger(c) ==> get_spec(s, c) == Some(s.finger_of(c).1),
        !s.has_finger(c) ==> get_spec(s, c) == (match s.latest {
            None => None::<V>,
            Some((it, p)) => Some(p),
        }),
        forall|p: V|
            #[trigger] poll_spec(s, c).0 == PollV::Available(p) ==> get_spec(
                poll_spec(s, c).1,
                c,
            ) == Some(p),
{
    assert forall|p: V| #[trigger]
        poll_spec(s, c).0 == PollV::Available(p) implies get_spec(poll_spec(s, c).1, c) == Some(
        p,
    ) by {
        let (it, q) = s.latest->Some_0;
        let s1 = poll_spec(s, c).1;
        if seq_has(s.fingers, c) {
            let k = seq_index_of(s.fingers, c);
            assert(0 <= k < s.fingers.len() && s.fingers[k].0 == c);
            assert(s1.fingers[k].0 == c);
            lemma_poll_spec_wf(s, c);
            lemma_index_of_unique(s1.fingers, c, k);
        } else {
            let k = s.fingers.len() as int;
            assert(s1.fingers[k].0 == c);
            lemma_poll_spec_wf(s, c);
            lemma_index_of_unique(s1.fingers, c, k);
        }
    }
}

/// The payload of one completed cycle of the incremental-merge supervisor:
/// how many errors the cycle reported, and the cycle's full merged text.
pub struct CompileResult {
    pub error_count: u16,
    pub text: Vec<u8>,
}

impl DeepView for CompileResult {
    type V = (u16, Seq<u8>);

    open spec fn deep_view(&self) -> (u16, Seq<u8>) {
        (self.error_count, self.text.deep_view())
    }
}

impl Snapshot for CompileResult {
    fn dup(&self) -> (r: Self)
        ensures
            r.deep_view() == self.deep_view(),
    {
        CompileResult { error_count: self.error_count, text: copy_bytes(&self.text) }
    }
}

/// The incremental-merge supervisor's snapshot payload: `None` while a cycle
/// is in progress, a result once one completed.
impl Snapshot for Option<CompileResult> {
    fn dup(&self) -> (r: Self)
        ensures
            r.deep_view() == self.deep_view(),
    {
        match self {
            None => None,
            Some(c) => Some(c.dup()),
        }
    }
}

/// The mathematical value of one finished command run.
#[verifier::ext_equal]
pub struct RunOutputView {
    pub status: Option<i32>,
    pub stdout: Seq<u8>,
    pub stderr: Seq<u8>,
}

/// The periodic supervisor's snapshot payload: one finished run of the
/// watched command — its exit code (`None` when the command was killed by a
/// signal) and its two captured streams.
pub struct RunOutput {
    pub status: Option<i32>,
    pub stdout: Vec<u8>,
    pub stderr: Vec<u8>,
}

impl DeepView for RunOutput {
    type V = RunOutputView;

    open spec fn deep_view(&self) -> RunOutputView {
        RunOutputView {
            status: self.status,
            stdout: self.stdout.deep_view(),
            stderr: self.stderr.deep_view(),
        }
    }
}

impl Snapshot for RunOutput {
    fn dup(&self) -> (r: Self)
        ensures
            r.deep_view() == self.deep_view(),
    {
        RunOutput {
            status: self.status,
            stdout: copy_bytes(&self.stdout),
            stderr: copy_bytes(&self.stderr),
        }
    }
}

/// The cache of the incremental-merge daemon.
pub type TscState = Cache<Option<CompileResult>>;

/// The cache of the periodic-runner daemon.
pub type WatchState = Cache<RunOutput>;

} // verus!
