//! Line patterns of the incremental-merge supervisor.
//!
//! The watched compiler announces its state in its output: one line shape
//! opens a cycle (a fresh watch session or an incremental recompilation) and
//! one closes it, carrying the cycle's error count.  A pattern here is a
//! sequence of byte patterns, each a fixed byte or a wildcard standing for
//! any byte but a newline, and a line matches a pattern when the pattern
//! fits somewhere inside it.

use vstd::prelude::*;

verus! {

/// One position of a line pattern: a fixed byte, or any byte but a newline.
#[derive(Clone, Copy)]
pub enum Pat {
    Lit(u8),
    Any,
}

/// Whether byte `b` fits pattern element `p`.
pub open spec fn pat_elem_matches(p: Pat, b: u8) -> bool {
    match p {
        Pat::Lit(x) => b == x,
        Pat::Any => b != 10,
    }
}

/// Whether `pat` fits `line` starting at position `k`.
pub open spec fn pat_matches_at(line: Seq<u8>, pat: Seq<Pat>, k: int) -> bool {
    &&& 0 <= k
    &&& k + pat.len() <= line.len()
    &&& forall|j: int| 0 <= j < pat.len() ==> pat_elem_matches(pat[j], line[k + j])
}

/// Whether `pat` fits somewhere inside `line`.
pub open spec fn pat_matches(line: Seq<u8>, pat: Seq<Pat>) -> bool {
    exists|k: int| pat_matches_at(line, pat, k)
}

/// Whether `line` opens a cycle.
pub open spec fn is_cycle_start(line: Seq<u8>) -> bool {
    pat_matches(line, start_fresh_pat()) || pat_matches(line, start_incremental_pat())
}

/// Length of the run of ASCII digits in `line` that starts at `p`.
pub open spec fn digit_run(line: Seq<u8>, p: int) -> int
    decreases line.len() - p,
{
    if p < 0 || p >= line.len() || !is_digit_byte(line[p]) {
        0
    } else {
        1 + digit_run(line, p + 1)
    }
}

/// True of the bytes of ASCII digits.
pub open spec fn is_digit_byte(b: u8) -> bool {
    ('0' as u8) <= b <= ('9' as u8)
}

/// The numeric value of one digit byte (and zero of any other byte).
pub open spec fn digit_of(b: u8) -> nat {
    if is_digit_byte(b) {
        (b - ('0' as u8)) as nat
    } else {
        0
    }
}

/// The decimal value of a sequence of digit bytes.
pub open spec fn digits_val(ds: Seq<u8>) -> nat
    decreases ds.len(),
{
    if ds.len() == 0 {
        0
    } else {
        digits_val(ds.drop_last()) * 10 + digit_of(ds.last())
    }
}

/// Whether a cycle-end line shape fits `line` at position `k`: the count
/// prefix, one or more digits, and the closing tail.
pub open spec fn is_cycle_end_at(line: Seq<u8>, k: int) -> bool {
    &&& pat_matches_at(line, found_pat(), k)
    &&& digit_run(line, k + found_pat().len()) >= 1
    &&& pat_matches_at(
        line,
        end_tail_pat(),
        k + found_pat().len() + digit_run(line, k + found_pat().len()),
    )
}

/// Whether `line` closes a cycle.
pub open spec fn is_cycle_end(line: Seq<u8>) -> bool {
    exists|k: int| is_cycle_end_at(line, k)
}

/// The leftmost position at which a cycle-end shape fits `line`.
pub open spec fn first_end_pos(line: Seq<u8>) -> int {
    choose|k: int|
        is_cycle_end_at(line, k) && (forall|k2: int| 0 <= k2 < k ==> !is_cycle_end_at(line, k2))
}

/// The digit bytes of the error count embedded in a cycle-end line, read at
/// the leftmost position where the end shape fits.
pub open spec fn end_count_digits(line: Seq<u8>) -> Seq<u8> {
    let k = first_end_pos(line);
    line.subrange(k + found_pat().len(), k + found_pat().len() + digit_run(line, k + found_pat().len()))
}

/// The error count embedded in a cycle-end line.
pub open spec fn end_count_val(line: Seq<u8>) -> nat {
    digits_val(end_count_digits(line))
}

/// What reading a line for the cycle-end shape yields.
pub enum CycleEnd {
    /// The line does not close a cycle.
    NotEnd,
    /// The line closes a cycle reporting this many errors.
    Errors(u16),
    /// The line closes a cycle, but its embedded count exceeds `u16::MAX`.
    CountTooLarge,
}

/// The line shape that opens a fresh watch session.
pub open spec fn start_fresh_pat() -> Seq<Pat> {
    seq![
        Pat::Lit('S' as u8),
        Pat::Lit('t' as u8),
        Pat::Lit('a' as u8),
        Pat::Lit('r' as u8),
        Pat::Lit('t' as u8),
        Pat::Lit('i' as u8),
        Pat::Lit('n' as u8),
        Pat::Lit('g' as u8),
        Pat::Lit(' ' as u8),
        Pat::Lit('c' as u8),
        Pat::Lit('o' as u8),
        Pat::Lit('m' as u8),
        Pat::Lit('p' as u8),
        Pat::Lit('i' as u8),
        Pat::Lit('l' as u8),
        Pat::Lit('a' as u8),
        Pat::Lit('t' as u8),
        Pat::Lit('i' as u8),
        Pat::Lit('o' as u8),
        Pat::Lit('n' as u8),
        Pat::Lit(' ' as u8),
        Pat::Lit('i' as u8),
        Pat::Lit('n' as u8),
        Pat::Lit(' ' as u8),
        Pat::Lit('w' as u8),
        Pat::Lit('a' as u8),
        Pat::Lit('t' as u8),
        Pat::Lit('c' as u8),
        Pat::Lit('h' as u8),
        Pat::Lit(' ' as u8),
        Pat::Lit('m' as u8),
        Pat::Lit('o' as u8),
        Pat::Lit('d' as u8),
        Pat::Lit('e' as u8),
        Pat::Any,
        Pat::Any,
        Pat::Any,
    ]
}

/// The line shape that opens an incremental recompilation.
pub open spec fn start_incremental_pat() -> Seq<Pat> {
    seq![
        Pat::Lit('F' as u8),
        Pat::Lit('i' as u8),
        Pat::Lit('l' as u8),
        Pat::Lit('e' as u8),
        Pat::Lit(' ' as u8),
        Pat::Lit('c' as u8),
        Pat::Lit('h' as u8),
        Pat::Lit('a' as u8),
        Pat::Lit('n' as u8),
        Pat::Lit('g' as u8),
        Pat::Lit('e' as u8),
        Pat::Lit(' ' as u8),
        Pat::Lit('d' as u8),
        Pat::Lit('e' as u8),
        Pat::Lit('t' as u8),
        Pat::Lit('e' as u8),
        Pat::Lit('c' as u8),
        Pat::Lit('t' as u8),
        Pat::Lit('e' as u8),
        Pat::Lit('d' as u8),
        Pat::Any,
        Pat::Lit(' ' as u8),
        Pat::Lit('S' as u8),
        Pat::Lit('t' as u8),
        Pat::Lit('a' as u8),
        Pat::Lit('r' as u8),
        Pat::Lit('t' as u8),
        Pat::Lit('i' as u8),
        Pat::Lit('n' as u8),
        Pat::Lit('g' as u8),
        Pat::Lit(' ' as u8),
        Pat::Lit('i' as u8),
        Pat::Lit('n' as u8),
        Pat::Lit('c' as u8),
        Pat::Lit('r' as u8),
        Pat::Lit('e' as u8),
        Pat::Lit('m' as u8),
        Pat::Lit('e' as u8),
        Pat::Lit('n' as u8),
        Pat::Lit('t' as u8),
        Pat::Lit('a' as u8),
        Pat::Lit('l' as u8),
        Pat::Lit(' ' as u8),
        Pat::Lit('c' as u8),
        Pat::Lit('o' as u8),
        Pat::Lit('m' as u8),
        Pat::Lit('p' as u8),
        Pat::Lit('i' as u8),
        Pat::Lit('l' as u8),
        Pat::Lit('a' as u8),
        Pat::Lit('t' as u8),
        Pat::Lit('i' as u8),
        Pat::Lit('o' as u8),
        Pat::Lit('n' as u8),
        Pat::Any,
        Pat::Any,
        Pat::Any,
    ]
}

/// The bytes that precede the error count in a cycle-end line.
pub open spec fn found_pat() -> Seq<Pat> {
    seq![
        Pat::Lit('F' as u8),
        Pat::Lit('o' as u8),
        Pat::Lit('u' as u8),
        Pat::Lit('n' as u8),
        Pat::Lit('d' as u8),
        Pat::Lit(' ' as u8),
    ]
}

/// The line shape that follows the error count in a cycle-end line.
pub open spec fn end_tail_pat() -> Seq<Pat> {
    seq![
        Pat::Lit(' ' as u8),
        Pat::Lit('e' as u8),
        Pat::Lit('r' as u8),
        Pat::Lit('r' as u8),
        Pat::Lit('o' as u8),
        Pat::Lit('r' as u8),
        Pat::Lit('s' as u8),
        Pat::Any,
        Pat::Lit(' ' as u8),
        Pat::Lit('W' as u8),
        Pat::Lit('a' as u8),
        Pat::Lit('t' as u8),
        Pat::Lit('c' as u8),
        Pat::Lit('h' as u8),
        Pat::Lit('i' as u8),
        Pat::Lit('n' as u8),
        Pat::Lit('g' as u8),
        Pat::Lit(' ' as u8),
        Pat::Lit('f' as u8),
        Pat::Lit('o' as u8),
        Pat::Lit('r' as u8),
        Pat::Lit(' ' as u8),
        Pat::Lit('f' as u8),
        Pat::Lit('i' as u8),
        Pat::Lit('l' as u8),
        Pat::Lit('e' as u8),
        Pat::Lit(' ' as u8),
        Pat::Lit('c' as u8),
        Pat::Lit('h' as u8),
        Pat::Lit('a' as u8),
        Pat::Lit('n' as u8),
        Pat::Lit('g' as u8),
        Pat::Lit('e' as u8),
        Pat::Lit('s' as u8),
        Pat::Any,
    ]
}

#[verifier::rlimit(50)]
fn start_fresh_vec() -> (v: Vec<Pat>)
    ensures
        v@ == start_fresh_pat(),
{
    let mut v: Vec<Pat> = Vec::new();
    v.push(Pat::Lit('S' as u8));
    v.push(Pat::Lit('t' as u8));
    v.push(Pat::Lit('a' as u8));
    v.push(Pat::Lit('r' as u8));
    v.push(Pat::Lit('t' as u8));
    v.push(Pat::Lit('i' as u8));
    v.push(Pat::Lit('n' as u8));
    v.push(Pat::Lit('g' as u8));
    v.push(Pat::Lit(' ' as u8));
    v.push(Pat::Lit('c' as u8));
    v.push(Pat::Lit('o' as u8));
    v.push(Pat::Lit('m' as u8));
    v.push(Pat::Lit('p' as u8));
    v.push(Pat::Lit('i' as u8));
    v.push(Pat::Lit('l' as u8));
    v.push(Pat::Lit('a' as u8));
    v.push(Pat::Lit('t' as u8));
    v.push(Pat::Lit('i' as u8));
    v.push(Pat::Lit('o' as u8));
    v.push(Pat::Lit('n' as u8));
    v.push(Pat::Lit(' ' as u8));
    v.push(Pat::Lit('i' as u8));
    v.push(Pat::Lit('n' as u8));
    v.push(Pat::Lit(' ' as u8));
    v.push(Pat::Lit('w' as u8));
    v.push(Pat::Lit('a' as u8));
    v.push(Pat::Lit('t' as u8));
    v.push(Pat::Lit('c' as u8));
    v.push(Pat::Lit('h' as u8));
    v.push(Pat::Lit(' ' as u8));
    v.push(Pat::Lit('m' as u8));
    v.push(Pat::Lit('o' as u8));
    v.push(Pat::Lit('d' as u8));
    v.push(Pat::Lit('e' as u8));
    v.push(Pat::Any);
    v.push(Pat::Any);
    v.push(Pat::Any);
    proof {
        assert(v@ =~= start_fresh_pat());
    }
    v
}

#[verifier::rlimit(50)]
fn start_incremental_vec() -> (v: Vec<Pat>)
    ensures
        v@ == start_incremental_pat(),
{
    let mut v: Vec<Pat> = Vec::new();
    v.push(Pat::Lit('F' as u8));
    v.push(Pat::Lit('i' as u8));
    v.push(Pat::Lit('l' as u8));
    v.push(Pat::Lit('e' as u8));
    v.push(Pat::Lit(' ' as u8));
    v.push(Pat::Lit('c' as u8));
    v.push(Pat::Lit('h' as u8));
    v.push(Pat::Lit('a' as u8));
    v.push(Pat::Lit('n' as u8));
    v.push(Pat::Lit('g' as u8));
    v.push(Pat::Lit('e' as u8));
    v.push(Pat::Lit(' ' as u8));
    v.push(Pat::Lit('d' as u8));
    v.push(Pat::Lit('e' as u8));
    v.push(Pat::Lit('t' as u8));
    v.push(Pat::Lit('e' as u8));
    v.push(Pat::Lit('c' as u8));
    v.push(Pat::Lit('t' as u8));
    v.push(Pat::Lit('e' as u8));
    v.push(Pat::Lit('d' as u8));
    v.push(Pat::Any);
    v.push(Pat::Lit(' ' as u8));
    v.push(Pat::Lit('S' as u8));
    v.push(Pat::Lit('t' as u8));
    v.push(Pat::Lit('a' as u8));
    v.push(Pat::Lit('r' as u8));
    v.push(Pat::Lit('t' as u8));
    v.push(Pat::Lit('i' as u8));
    v.push(Pat::Lit('n' as u8));
    v.push(Pat::Lit('g' as u8));
    v.push(Pat::Lit(' ' as u8));
    v.push(Pat::Lit('i' as u8));
    v.push(Pat::Lit('n' as u8));
    v.push(Pat::Lit('c' as u8));
    v.push(Pat::Lit('r' as u8));
    v.push(Pat::Lit('e' as u8));
    v.push(Pat::Lit('m' as u8));
    v.push(Pat::Lit('e' as u8));
    v.push(Pat::Lit('n' as u8));
    v.push(Pat::Lit('t' as u8));
    v.push(Pat::Lit('a' as u8));
    v.push(Pat::Lit('l' as u8));
    v.push(Pat::Lit(' ' as u8));
    v.push(Pat::Lit('c' as u8));
    v.push(Pat::Lit('o' as u8));
    v.push(Pat::Lit('m' as u8));
    v.push(Pat::Lit('p' as u8));
    v.push(Pat::Lit('i' as u8));
    v.push(Pat::Lit('l' as u8));
    v.push(Pat::Lit('a' as u8));
    v.push(Pat::Lit('t' as u8));
    v.push(Pat::Lit('i' as u8));
    v.push(Pat::Lit('o' as u8));
    v.push(Pat::Lit('n' as u8));
    v.push(Pat::Any);
    v.push(Pat::Any);
    v.push(Pat::Any);
    proof {
        assert(v@ =~= start_incremental_pat());
    }
    v
}

fn found_vec() -> (v: Vec<Pat>)
    ensures
        v@ == found_pat(),
{
    let mut v: Vec<Pat> = Vec::new();
    v.push(Pat::Lit('F' as u8));
    v.push(Pat::Lit('o' as u8));
    v.push(Pat::Lit('u' as u8));
    v.push(Pat::Lit('n' as u8));
    v.push(Pat::Lit('d' as u8));
    v.push(Pat::Lit(' ' as u8));
    proof {
        assert(v@ =~= found_pat());
    }
    v
}

#[verifier::rlimit(50)]
fn end_tail_vec() -> (v: Vec<Pat>)
    ensures
        v@ == end_tail_pat(),
{
    let mut v: Vec<Pat> = Vec::new();
    v.push(Pat::Lit(' ' as u8));
    v.push(Pat::Lit('e' as u8));
    v.push(Pat::Lit('r' as u8));
    v.push(Pat::Lit('r' as u8));
    v.push(Pat::Lit('o' as u8));
    v.push(Pat::Lit('r' as u8));
    v.push(Pat::Lit('s' as u8));
    v.push(Pat::Any);
    v.push(Pat::Lit(' ' as u8));
    v.push(Pat::Lit('W' as u8));
    v.push(Pat::Lit('a' as u8));
    v.push(Pat::Lit('t' as u8));
    v.push(Pat::Lit('c' as u8));
    v.push(Pat::Lit('h' as u8));
    v.push(Pat::Lit('i' as u8));
    v.push(Pat::Lit('n' as u8));
    v.push(Pat::Lit('g' as u8));
    v.push(Pat::Lit(' ' as u8));
    v.push(Pat::Lit('f' as u8));
    v.push(Pat::Lit('o' as u8));
    v.push(Pat::Lit('r' as u8));
    v.push(Pat::Lit(' ' as u8));
    v.push(Pat::Lit('f' as u8));
    v.push(Pat::Lit('i' as u8));
    v.push(Pat::Lit('l' as u8));
    v.push(Pat::Lit('e' as u8));
    v.push(Pat::Lit(' ' as u8));
    v.push(Pat::Lit('c' as u8));
    v.push(Pat::Lit('h' as u8));
    v.push(Pat::Lit('a' as u8));
    v.push(Pat::Lit('n' as u8));
    v.push(Pat::Lit('g' as u8));
    v.push(Pat::Lit('e' as u8));
    v.push(Pat::Lit('s' as u8));
    v.push(Pat::Any);
    proof {
        assert(v@ =~= end_tail_pat());
    }
    v
}
#[verifier::inline]
pub open spec fn spec_digit_byte(b: u8) -> bool {
    is_digit_byte(b)
}

/// Executable twin of [`is_digit_byte`].
#[verifier::when_used_as_spec(spec_digit_byte)]
pub fn digit_byte(b: u8) -> (r: bool)
    ensures
        r == is_digit_byte(b),
{
    ('0' as u8) <= b && b <= ('9' as u8)
}

fn pat_at(line: &[u8], pat: &Vec<Pat>, k: usize) -> (r: bool)
    requires
        k <= line@.len(),
    ensures
        r == pat_matches_at(line@, pat@, k as int),
{
    if pat.len() > line.len() - k {
        return false;
    }
    let n: usize = line.len();
    let mut j: usize = 0;
    while j < pat.len()
        invariant
            line@.len() == n,
            k + pat@.len() <= n,
            j <= pat@.len(),
            forall|j2: int| 0 <= j2 < j ==> pat_elem_matches(pat@[j2], line@[k + j2]),
        decreases pat@.len() - j,
    {
        let p: Pat = pat[j];
        let ok = match p {
            Pat::Lit(x) => line[k + j] == x,
            Pat::Any => line[k + j] != 10,
        };
        if !ok {
            return false;
        }
        j += 1;
    }
    true
}

fn pat_search(line: &[u8], pat: &Vec<Pat>) -> (r: bool)
    ensures
        r == pat_matches(line@, pat@),
{
    let n: usize = line.len();
    let mut k: usize = 0;
    while k < n
        invariant
            line@.len() == n,
            k <= n,
            forall|k2: int| 0 <= k2 < k ==> !pat_matches_at(line@, pat@, k2),
        decreases n - k,
    {
        if pat_at(line, pat, k) {
            return true;
        }
        k += 1;
    }
    if pat_at(line, pat, n) {
        return true;
    }
    proof {
        assert forall|k2: int| !pat_matches_at(line@, pat@, k2) by {
            if k2 > line@.len() {
                assert(k2 + pat@.len() > line@.len());
            }
        }
    }
    false
}

/// Whether this line opens a cycle.
pub fn cycle_start(line: &[u8]) -> (r: bool)
    ensures
        r == is_cycle_start(line@),
{
    let fresh = start_fresh_vec();
    if pat_search(line, &fresh) {
        return true;
    }
    let incremental = start_incremental_vec();
    pat_search(line, &incremental)
}

proof fn lemma_digit_run(line: Seq<u8>, p: int, e: int)
    requires
        0 <= p <= e <= line.len(),
        forall|j: int| p <= j < e ==> is_digit_byte(line[j]),
        e == line.len() || !is_digit_byte(line[e]),
    ensures
        digit_run(line, p) == e - p,
    decreases e - p,
{
    if p < e {
        lemma_digit_run(line, p + 1, e);
    }
}

proof fn lemma_digits_val_mono(ds: Seq<u8>, i: int)
    requires
        0 <= i <= ds.len(),
    ensures
        digits_val(ds.subrange(0, i)) <= digits_val(ds),
    decreases ds.len() - i,
{
    if i == ds.len() {
        assert(ds.subrange(0, i) =~= ds);
    } else {
        assert(ds.subrange(0, i + 1).drop_last() =~= ds.subrange(0, i));
        assert(digits_val(ds.subrange(0, i)) <= digits_val(ds.subrange(0, i + 1)));
        lemma_digits_val_mono(ds, i + 1);
    }
}

proof fn lemma_first_end(line: Seq<u8>, k: int)
    requires
        is_cycle_end_at(line, k),
        forall|k2: int| 0 <= k2 < k ==> !is_cycle_end_at(line, k2),
    ensures
        is_cycle_end(line),
        first_end_pos(line) == k,
{
    assert(is_cycle_end(line));
    let kk = first_end_pos(line);
    assert(is_cycle_end_at(line, kk) && (forall|k2: int| 0 <= k2 < kk ==> !is_cycle_end_at(
        line,
        k2,
    ))) by {
        assert(is_cycle_end_at(line, k) && (forall|k2: int| 0 <= k2 < k ==> !is_cycle_end_at(
            line,
            k2,
        )));
    }
    if kk < k {
        assert(!is_cycle_end_at(line, kk));
        assert(false);
    }
    if kk > k {
        assert(!is_cycle_end_at(line, k));
        assert(false);
    }
}

/// Read this line for the cycle-end shape and its embedded error count.
#[verifier::rlimit(30)]
pub fn cycle_end(line: &[u8]) -> (r: CycleEnd)
    ensures
        (r is NotEnd) == !is_cycle_end(line@),
        is_cycle_end(line@) && end_count_val(line@) <= 65535 ==> r == CycleEnd::Errors(
            end_count_val(line@) as u16,
        ),
        is_cycle_end(line@) && end_count_val(line@) > 65535 ==> r is CountTooLarge,
{
    let found = found_vec();
    let tail = end_tail_vec();
    let n: usize = line.len();
    let mut k: usize = 0;
    while k < n
        invariant
            line@.len() == n,
            k <= n,
            found@ == found_pat(),
            tail@ == end_tail_pat(),
            forall|k2: int| 0 <= k2 < k ==> !is_cycle_end_at(line@, k2),
        decreases n - k,
    {
        match end_at(line, &found, &tail, k) {
            CycleEnd::NotEnd => {},
            r => {
                return r;
            },
        }
        k += 1;
    }
    match end_at(line, &found, &tail, n) {
        CycleEnd::NotEnd => {},
        r => {
            return r;
        },
    }
    proof {
        assert forall|k2: int| !is_cycle_end_at(line@, k2) by {
            if k2 > line@.len() {
                assert(k2 + found_pat().len() > line@.len());
            }
        }
    }
    CycleEnd::NotEnd
}

/// Read the cycle-end shape at one position, given that it fits nowhere
/// earlier in the line.
fn end_at(line: &[u8], found: &Vec<Pat>, tail: &Vec<Pat>, k: usize) -> (r: CycleEnd)
    requires
        k <= line@.len(),
        found@ == found_pat(),
        tail@ == end_tail_pat(),
        forall|k2: int| 0 <= k2 < k ==> !is_cycle_end_at(line@, k2),
    ensures
        (r is NotEnd) == !is_cycle_end_at(line@, k as int),
        is_cycle_end_at(line@, k as int) ==> is_cycle_end(line@) && first_end_pos(line@)
            == k as int,
        is_cycle_end_at(line@, k as int) && end_count_val(line@) <= 65535 ==> r
            == CycleEnd::Errors(end_count_val(line@) as u16),
        is_cycle_end_at(line@, k as int) && end_count_val(line@) > 65535 ==> r
            is CountTooLarge,
{
    let n: usize = line.len();
    if !pat_at(line, found, k) {
        return CycleEnd::NotEnd;
    }
    let start: usize = k + found.len();
    let mut e: usize = start;
    while e < n && digit_byte(line[e])
        invariant
            line@.len() == n,
            start <= e <= n,
            forall|j: int| start <= j < e ==> is_digit_byte(line@[j]),
        decreases n - e,
    {
        e += 1;
    }
    proof {
        lemma_digit_run(line@, start as int, e as int);
    }
    if e == start {
        return CycleEnd::NotEnd;
    }
    if !pat_at(line, tail, e) {
        return CycleEnd::NotEnd;
    }
    proof {
        assert(is_cycle_end_at(line@, k as int));
        lemma_first_end(line@, k as int);
        assert(end_count_digits(line@) =~= line@.subrange(start as int, e as int));
    }
    match parse_count(line, start, e) {
        Some(v) => CycleEnd::Errors(v),
        None => CycleEnd::CountTooLarge,
    }
}

/// The decimal value of the digit bytes in `line[start..e]`, unless it
/// exceeds `u16::MAX`.
fn parse_count(line: &[u8], start: usize, e: usize) -> (r: Option<u16>)
    requires
        start <= e <= line@.len(),
        forall|j: int| start <= j < e ==> is_digit_byte(line@[j]),
    ensures
        match r {
            Some(v) => v == digits_val(line@.subrange(start as int, e as int)),
            None => digits_val(line@.subrange(start as int, e as int)) > 65535,
        },
{
    let ghost full = line@.subrange(start as int, e as int);
    let mut val: u32 = 0;
    let mut i: usize = start;
    while i < e
        invariant
            start <= i <= e <= line@.len(),
            forall|j: int| start <= j < e ==> is_digit_byte(line@[j]),
            full == line@.subrange(start as int, e as int),
            val == digits_val(line@.subrange(start as int, i as int)),
            val <= 65535,
        decreases e - i,
    {
        let d: u8 = line[i] - ('0' as u8);
        let nv: u32 = val * 10 + (d as u32);
        proof {
            assert(line@.subrange(start as int, i + 1 as int).drop_last() =~= line@.subrange(
                start as int,
                i as int,
            ));
            assert(nv == digits_val(line@.subrange(start as int, i + 1 as int)));
        }
        i += 1;
        if nv > 65535 {
            proof {
                assert(line@.subrange(start as int, i as int) =~= full.subrange(0, i - start));
                lemma_digits_val_mono(full, i - start);
                assert(digits_val(full) > 65535);
            }
            return None;
        }
        val = nv;
    }
    proof {
        assert(line@.subrange(start as int, e as int) =~= full);
    }
    Some(val as u16)
}

} // verus!
