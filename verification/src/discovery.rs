//! Discovery: locating genies on a search path.
//!
//! A search path is a colon-separated, ordered list of directories; each
//! running genie owns one socket file whose name embeds its `name` and
//! numeric disambiguator as `{name}.{num}.sock` (both lowercase
//! alphanumeric), and a file is recognised wherever that shape first fits
//! inside its name.  A directory's position in the path is the genie's
//! priority: scans go in path order and `find` answers the first match.
//!
//! Reading directories is I/O and stays with the caller; the functions here
//! work on the listing the caller gathered, in scan order.

use vstd::prelude::*;

use vstd::string::StrSliceExecFns;

verus! {

/// The segments of `s` between occurrences of `sep`: splitting never yields
/// an empty list, and empty segments count, as in `a::b` or a trailing
/// separator.
pub open spec fn split_char(s: Seq<char>, sep: char) -> Seq<Seq<char>>
    decreases s.len(),
{
    if s.len() == 0 {
        seq![Seq::<char>::empty()]
    } else if s[0] == sep {
        seq![Seq::<char>::empty()] + split_char(s.drop_first(), sep)
    } else {
        let r = split_char(s.drop_first(), sep);
        seq![seq![s[0]] + r[0]] + r.drop_first()
    }
}

proof fn lemma_split_head(s: Seq<char>, sep: char, i: int)
    requires
        0 <= i <= s.len(),
        forall|j: int| 0 <= j < i ==> s[j] != sep,
        i == s.len() || s[i] == sep,
    ensures
        split_char(s, sep).len() >= 1,
        split_char(s, sep)[0] == s.subrange(0, i),
        i < s.len() ==> split_char(s, sep) == seq![s.subrange(0, i)] + split_char(
            s.subrange(i + 1, s.len() as int),
            sep,
        ),
        i == s.len() ==> split_char(s, sep).len() == 1,
    decreases s.len(),
{
    if s.len() == 0 {
        assert(split_char(s, sep)[0] =~= s.subrange(0, i));
    } else if s[0] == sep {
        assert(i == 0);
        assert(split_char(s, sep)[0] =~= s.subrange(0, 0));
        assert(s.drop_first() =~= s.subrange(1, s.len() as int));
        assert(split_char(s, sep) =~= seq![s.subrange(0, i)] + split_char(
            s.subrange(i + 1, s.len() as int),
            sep,
        ));
    } else {
        let t = s.drop_first();
        assert(forall|j: int| 0 <= j < i - 1 ==> t[j] != sep);
        lemma_split_head(t, sep, i - 1);
        let r = split_char(t, sep);
        assert(split_char(s, sep)[0] =~= s.subrange(0, i)) by {
            assert(r[0] == t.subrange(0, i - 1));
            assert((seq![s[0]] + t.subrange(0, i - 1)) =~= s.subrange(0, i));
        }
        if i < s.len() {
            assert(r == seq![t.subrange(0, i - 1)] + split_char(
                t.subrange(i, t.len() as int),
                sep,
            ));
            assert(t.subrange(i, t.len() as int) =~= s.subrange(i + 1, s.len() as int));
            assert(r.drop_first() =~= split_char(s.subrange(i + 1, s.len() as int), sep));
            assert(split_char(s, sep) =~= seq![s.subrange(0, i)] + split_char(
                s.subrange(i + 1, s.len() as int),
                sep,
            ));
        }
    }
}

/// The position of the first `sep` in `s` at or after `from`, or the length
/// of `s` when there is none.
fn find_char(s: &str, from: usize, sep: char) -> (q: usize)
    requires
        from <= s@.len(),
    ensures
        from <= q <= s@.len(),
        forall|j: int| from <= j < q ==> s@[j] != sep,
        q < s@.len() ==> s@[q as int] == sep,
{
    let len: usize = s.unicode_len();
    let mut q: usize = from;
    while q < len && s.get_char(q) != sep
        invariant
            len == s@.len(),
            from <= q <= len,
            forall|j: int| from <= j < q ==> s@[j] != sep,
        decreases len - q,
    {
        q += 1;
    }
    q
}

/// The directory at position `n` of the colon-separated search path, if the
/// path has that many entries.
pub fn nth(path: &String, n: usize) -> (r: Option<String>)
    ensures
        match r {
            Some(seg) => n < split_char(path@, ':').len() && seg@ == split_char(path@, ':')[
                n as int
            ],
            None => n >= split_char(path@, ':').len(),
        },
{
    let ghost full = split_char(path@, ':');
    let s = path.as_str();
    let len: usize = s.unicode_len();
    proof {
        assert(path@.subrange(0, len as int) =~= path@);
        assert(full.subrange(0, full.len() as int) =~= full);
    }
    let mut p: usize = 0;
    let mut k: usize = 0;
    while k < n
        invariant
            s@ == path@,
            len == path@.len(),
            k <= n,
            p <= len,
            full == split_char(path@, ':'),
            k <= full.len(),
            split_char(path@.subrange(p as int, len as int), ':') == full.subrange(
                k as int,
                full.len() as int,
            ),
        decreases n - k,
    {
        let ghost suffix = path@.subrange(p as int, len as int);
        let q = find_char(s, p, ':');
        proof {
            assert(forall|j: int| 0 <= j < q - p ==> suffix[j] != ':');
            lemma_split_head(suffix, ':', q - p);
            assert(full.subrange(k as int, full.len() as int).len() == full.len() - k);
            assert(full.len() >= k + 1);
        }
        if q == len {
            proof {
                assert(split_char(suffix, ':').len() == 1);
                assert(full.len() == k + 1);
            }
            return None;
        }
        proof {
            let ghost gl = full.len() as int;
            assert(suffix.subrange(q - p + 1, suffix.len() as int) =~= path@.subrange(
                q + 1 as int,
                len as int,
            ));
            assert(split_char(suffix, ':') == seq![suffix.subrange(0, q - p)] + split_char(
                path@.subrange(q + 1 as int, len as int),
                ':',
            ));
            assert(split_char(path@.subrange(q + 1 as int, len as int), ':') =~= full.subrange(
                k + 1 as int,
                gl,
            )) by {
                assert(full.subrange(k as int, gl) == seq![suffix.subrange(0, q - p)]
                    + split_char(path@.subrange(q + 1 as int, len as int), ':'));
                assert forall|m: int|
                    0 <= m < split_char(path@.subrange(q + 1 as int, len as int), ':').len()
                    implies #[trigger] split_char(path@.subrange(q + 1 as int, len as int), ':')[m]
                    == full.subrange(k + 1 as int, gl)[m] by {
                    assert(full.subrange(k as int, gl)[m + 1] == split_char(
                        path@.subrange(q + 1 as int, len as int),
                        ':',
                    )[m]);
                    assert(full.subrange(k as int, gl)[m + 1] == full[k + 1 + m]);
                }
            }
        }
        p = q + 1;
        k += 1;
    }
    let ghost suffix = path@.subrange(p as int, len as int);
    let q = find_char(s, p, ':');
    proof {
        assert(forall|j: int| 0 <= j < q - p ==> suffix[j] != ':');
        lemma_split_head(suffix, ':', q - p);
        assert(full.subrange(n as int, full.len() as int).len() == full.len() - n);
        assert(full.len() >= n + 1);
        assert(full[n as int] == full.subrange(n as int, full.len() as int)[0]);
        assert(full[n as int] == suffix.subrange(0, q - p));
        assert(suffix.subrange(0, q - p) =~= path@.subrange(p as int, q as int));
    }
    let seg = s.substring_char(p, q);
    Some(seg.to_owned())
}

/// The search-path position a found genie is relocated to: one past where
/// it was found, if the path reaches that far.
pub fn promote_target(path: &String, found_index: usize) -> (r: Option<String>)
    requires
        found_index < usize::MAX,
    ensures
        match r {
            Some(seg) => found_index + 1 < split_char(path@, ':').len() && seg@ == split_char(
                path@,
                ':',
            )[found_index + 1],
            None => found_index + 1 >= split_char(path@, ':').len(),
        },
{
    nth(path, found_index + 1)
}

/// A genie named on the command line: a name, optionally followed by a dot
/// and a disambiguator; anything after a second dot is ignored.
pub fn parse_genie_arg(arg: &String) -> (r: (String, Option<String>))
    ensures
        r.0@ == split_char(arg@, '.')[0],
        match r.1 {
            None => split_char(arg@, '.').len() == 1,
            Some(num) => split_char(arg@, '.').len() >= 2 && num@ == split_char(arg@, '.')[1],
        },
{
    let s = arg.as_str();
    let len: usize = s.unicode_len();
    proof {
        assert(arg@.subrange(0, len as int) =~= arg@);
    }
    let q = find_char(s, 0, '.');
    proof {
        lemma_split_head(arg@, '.', q as int);
    }
    let name = s.substring_char(0, q).to_owned();
    if q == len {
        (name, None)
    } else {
        let ghost suffix = arg@.subrange(q + 1 as int, len as int);
        let q2 = find_char(s, q + 1, '.');
        proof {
            assert(forall|j: int| 0 <= j < q2 - q - 1 ==> suffix[j] != '.');
            lemma_split_head(suffix, '.', q2 - q - 1);
            assert(split_char(arg@, '.')[1] == suffix.subrange(0, q2 - q - 1));
            assert(suffix.subrange(0, q2 - q - 1) =~= arg@.subrange(q + 1 as int, q2 as int));
        }
        let num = s.substring_char(q + 1, q2).to_owned();
        (name, Some(num))
    }
}

/// True of the characters a socket-file name's fields may hold: lowercase
/// ASCII letters and digits.
pub open spec fn is_lower_alnum(c: char) -> bool {
    (('a' as u32) <= c as u32 <= ('z' as u32)) || (('0' as u32) <= c as u32 <= ('9' as u32))
}

/// Executable twin of [`is_lower_alnum`].
pub fn lower_alnum(c: char) -> (r: bool)
    ensures
        r == is_lower_alnum(c),
{
    let u: u32 = c as u32;
    (('a' as u32) <= u && u <= ('z' as u32)) || (('0' as u32) <= u && u <= ('9' as u32))
}

/// Length of the run of lowercase-alphanumeric characters in `s` that
/// starts at `p`.
pub open spec fn lower_run(s: Seq<char>, p: int) -> int
    decreases s.len() - p,
{
    if p < 0 || p >= s.len() || !is_lower_alnum(s[p]) {
        0
    } else {
        1 + lower_run(s, p + 1)
    }
}

/// Whether the socket-file shape `{name}.{num}.sock` fits `s` at position
/// `i`: a nonempty lowercase-alphanumeric run, a dot, another such run, a
/// dot, and the four characters `sock`.
pub open spec fn sock_match_at(s: Seq<char>, i: int) -> bool {
    let a = lower_run(s, i);
    let b = lower_run(s, i + a + 1);
    &&& 0 <= i
    &&& a >= 1
    &&& i + a < s.len() && s[i + a] == '.'
    &&& b >= 1
    &&& i + a + 1 + b < s.len() && s[i + a + 1 + b] == '.'
    &&& i + a + 1 + b + 5 <= s.len()
    &&& s[i + a + 1 + b + 1] == 's'
    &&& s[i + a + 1 + b + 2] == 'o'
    &&& s[i + a + 1 + b + 3] == 'c'
    &&& s[i + a + 1 + b + 4] == 'k'
}

/// Whether the socket-file shape fits somewhere in `s`.
pub open spec fn sock_matches(s: Seq<char>) -> bool {
    exists|i: int| sock_match_at(s, i)
}

/// The leftmost position at which the socket-file shape fits `s`.
pub open spec fn first_sock_pos(s: Seq<char>) -> int {
    choose|i: int| sock_match_at(s, i) && (forall|i2: int| 0 <= i2 < i ==> !sock_match_at(s, i2))
}

/// The name field of the leftmost socket-file shape in `s`.
pub open spec fn sock_name_of(s: Seq<char>) -> Seq<char> {
    let i = first_sock_pos(s);
    s.subrange(i, i + lower_run(s, i))
}

/// The disambiguator field of the leftmost socket-file shape in `s`.
pub open spec fn sock_num_of(s: Seq<char>) -> Seq<char> {
    let i = first_sock_pos(s);
    let a = lower_run(s, i);
    s.subrange(i + a + 1, i + a + 1 + lower_run(s, i + a + 1))
}

proof fn lemma_lower_run(s: Seq<char>, p: int, e: int)
    requires
        0 <= p <= e <= s.len(),
        forall|j: int| p <= j < e ==> is_lower_alnum(s[j]),
        e == s.len() || !is_lower_alnum(s[e]),
    ensures
        lower_run(s, p) == e - p,
    decreases e - p,
{
    if p < e {
        lemma_lower_run(s, p + 1, e);
    }
}

proof fn lemma_first_sock(s: Seq<char>, i: int)
    requires
        sock_match_at(s, i),
        forall|i2: int| 0 <= i2 < i ==> !sock_match_at(s, i2),
    ensures
        sock_matches(s),
        first_sock_pos(s) == i,
{
    assert(sock_matches(s));
    let k = first_sock_pos(s);
    assert(sock_match_at(s, k) && (forall|i2: int| 0 <= i2 < k ==> !sock_match_at(s, i2))) by {
        assert(sock_match_at(s, i) && (forall|i2: int| 0 <= i2 < i ==> !sock_match_at(s, i2)));
    }
    if k < i {
        assert(!sock_match_at(s, k));
        assert(false);
    }
    if k > i {
        assert(!sock_match_at(s, i));
        assert(false);
    }
}

fn try_sock_at(s: &str, i: usize) -> (r: Option<(usize, usize)>)
    requires
        i <= s@.len(),
    ensures
        match r {
            Some(ab) => {
                &&& sock_match_at(s@, i as int)
                &&& ab.0 as int == lower_run(s@, i as int)
                &&& ab.1 as int == lower_run(s@, i + ab.0 + 1)
            },
            None => !sock_match_at(s@, i as int),
        },
{
    let len: usize = s.unicode_len();
    let mut e: usize = i;
    while e < len && lower_alnum(s.get_char(e))
        invariant
            len == s@.len(),
            i <= e <= len,
            forall|j: int| i <= j < e ==> is_lower_alnum(s@[j]),
        decreases len - e,
    {
        e += 1;
    }
    proof {
        lemma_lower_run(s@, i as int, e as int);
    }
    if e == i {
        return None;
    }
    if e == len {
        return None;
    }
    if s.get_char(e) != '.' {
        return None;
    }
    let a: usize = e - i;
    let p2: usize = e + 1;
    let mut f: usize = p2;
    while f < len && lower_alnum(s.get_char(f))
        invariant
            len == s@.len(),
            p2 <= f <= len,
            forall|j: int| p2 <= j < f ==> is_lower_alnum(s@[j]),
        decreases len - f,
    {
        f += 1;
    }
    proof {
        lemma_lower_run(s@, p2 as int, f as int);
    }
    if f == p2 {
        return None;
    }
    if f == len {
        return None;
    }
    if s.get_char(f) != '.' {
        return None;
    }
    let b: usize = f - p2;
    if len - f - 1 < 4 {
        return None;
    }
    if s.get_char(f + 1) != 's' {
        return None;
    }
    if s.get_char(f + 2) != 'o' {
        return None;
    }
    if s.get_char(f + 3) != 'c' {
        return None;
    }
    if s.get_char(f + 4) != 'k' {
        return None;
    }
    proof {
        assert(sock_match_at(s@, i as int));
    }
    Some((a, b))
}

/// The name and disambiguator of a socket file.
pub struct SockName {
    pub name: String,
    pub num: String,
}

/// Read the socket-file shape out of a file name: the fields of the
/// leftmost fit, or nothing when the shape fits nowhere.
pub fn match_sockname(filename: &String) -> (r: Option<SockName>)
    ensures
        match r {
            Some(m) => {
                &&& sock_matches(filename@)
                &&& m.name@ == sock_name_of(filename@)
                &&& m.num@ == sock_num_of(filename@)
            },
            None => !sock_matches(filename@),
        },
{
    let s = filename.as_str();
    let len: usize = s.unicode_len();
    let mut i: usize = 0;
    while i < len
        invariant
            s@ == filename@,
            len == filename@.len(),
            i <= len,
            forall|i2: int| 0 <= i2 < i ==> !sock_match_at(filename@, i2),
        decreases len - i,
    {
        match try_sock_at(s, i) {
            Some((a, b)) => {
                proof {
                    lemma_first_sock(filename@, i as int);
                }
                let name = s.substring_char(i, i + a).to_owned();
                let num = s.substring_char(i + a + 1, i + a + 1 + b).to_owned();
                return Some(SockName { name, num });
            },
            None => {},
        }
        i += 1;
    }
    proof {
        assert forall|i2: int| !sock_match_at(filename@, i2) by {
            if i2 >= len {
                assert(lower_run(filename@, i2) == 0);
            }
        }
    }
    None
}

/// One entry of a directory scan of the search path: the 0-based position
/// of the directory in the path, and one file name found in it, in the
/// order the scan yielded them.
pub struct ScanEntry {
    pub dir_index: usize,
    pub file_name: String,
}

/// Whether a scanned file is the socket of the genie asked for: its name
/// must carry the socket shape with the wanted name, and the wanted
/// disambiguator when one was given.
pub open spec fn entry_matches(e: ScanEntry, name: Seq<char>, num: Option<Seq<char>>) -> bool {
    &&& sock_matches(e.file_name@)
    &&& sock_name_of(e.file_name@) == name
    &&& (num is None || num == Some(sock_num_of(e.file_name@)))
}

/// Locate a genie: the first entry of the scan, in scan order, whose file
/// is the wanted genie's socket.
#[verifier::rlimit(30)]
pub fn find(entries: &Vec<ScanEntry>, name: &String, num: &Option<String>) -> (r: Option<usize>)
    ensures
        match r {
            Some(k) => {
                &&& k < entries@.len()
                &&& entry_matches(entries@[k as int], name@, num.deep_view())
                &&& forall|j: int|
                    0 <= j < k ==> !entry_matches(entries@[j], name@, num.deep_view())
            },
            None => forall|j: int|
                0 <= j < entries@.len() ==> !entry_matches(entries@[j], name@, num.deep_view()),
        },
{
    let mut k: usize = 0;
    while k < entries.len()
        invariant
            k <= entries@.len(),
            forall|j: int| 0 <= j < k ==> !entry_matches(entries@[j], name@, num.deep_view()),
        decreases entries@.len() - k,
    {
        match match_sockname(&entries[k].file_name) {
            Some(m) => {
                let name_ok = m.name.eq(name);
                let num_ok = match num {
                    None => true,
                    Some(want) => m.num.eq(want),
                };
                if name_ok && num_ok {
                    return Some(k);
                }
            },
            None => {},
        }
        k += 1;
    }
    None
}

/// One recognised genie in a scan listing.
pub struct GenieRef {
    pub entry_index: usize,
    pub name: String,
    pub num: String,
}

/// The genies a scan listing holds, in scan order: for each entry whose
/// file name carries the socket shape, its position and fields.
pub open spec fn scan_genies(entries: Seq<ScanEntry>) -> Seq<(int, Seq<char>, Seq<char>)>
    decreases entries.len(),
{
    if entries.len() == 0 {
        Seq::empty()
    } else {
        let head = scan_genies(entries.drop_last());
        let e = entries.last();
        if sock_matches(e.file_name@) {
            head + seq![
                (
                    entries.len() - 1,
                    sock_name_of(e.file_name@),
                    sock_num_of(e.file_name@),
                ),
            ]
        } else {
            head
        }
    }
}

/// Enumerate every genie the scan found, in scan order.
#[verifier::rlimit(90)]
pub fn list_all(entries: &Vec<ScanEntry>) -> (r: Vec<GenieRef>)
    ensures
        r@.map_values(|g: GenieRef| (g.entry_index as int, g.name@, g.num@)) == scan_genies(
            entries@,
        ),
{
    let mut out: Vec<GenieRef> = Vec::new();
    let mut k: usize = 0;
    while k < entries.len()
        invariant
            k <= entries@.len(),
            out@.map_values(|g: GenieRef| (g.entry_index as int, g.name@, g.num@))
                == scan_genies(entries@.subrange(0, k as int)),
        decreases entries@.len() - k,
    {
        match match_sockname(&entries[k].file_name) {
            Some(m) => {
                out.push(GenieRef { entry_index: k, name: m.name, num: m.num });
            },
            None => {},
        }
        proof {
            assert(entries@.subrange(0, k + 1 as int).drop_last() =~= entries@.subrange(
                0,
                k as int,
            ));
            assert(entries@.subrange(0, k + 1 as int).last() == entries@[k as int]);
            assert(out@.map_values(|g: GenieRef| (g.entry_index as int, g.name@, g.num@))
                =~= scan_genies(entries@.subrange(0, k + 1 as int)));
        }
        k += 1;
    }
    proof {
        assert(entries@.subrange(0, entries@.len() as int) =~= entries@);
    }
    out
}

} // verus!
