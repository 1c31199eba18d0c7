//! A DLNA/UPnP media server library: content tree, transcode planning,
//! progressive media state, HTTP range planning, SOAP/DIDL rendering and
//! SSDP presence messages.

use vstd::prelude::*;

pub mod cache;
pub mod config;
pub mod devices;
pub mod discovery;
pub mod dlna;
pub mod error;
pub mod ffmpeg;
pub mod local;
pub mod root;
pub mod server;
pub mod types;
pub mod xml;

verus! {

/// Classification of a content node, derived from its path.
#[derive(Clone, Copy, Debug, PartialEq, Eq, Structural)]
pub enum Type {
    Directory,
    Image,
    Subtitles,
    Video,
    Other,
}

/// Size of a single chunk handed to a body stream.
pub const CHUNK_SIZE: usize = 256 * 1024;

/// What is known of a media body's size: the bytes available now, and the
/// final length once the producer has finished.
#[derive(Clone, Copy, Debug)]
pub struct MediaSize {
    pub available: u64,
    pub total: Option<u64>,
}

impl PartialEq for MediaSize {
    fn eq(&self, o: &Self) -> (r: bool) {
        self.available == o.available && self.total == o.total
    }
}

impl vstd::std_specs::cmp::PartialEqSpecImpl for MediaSize {
    open spec fn obeys_eq_spec() -> bool {
        true
    }

    open spec fn eq_spec(&self, o: &Self) -> bool {
        *self == *o
    }
}

/// The UTF-8 bytes of a text.
pub open spec fn spec_bytes_of(s: Seq<char>) -> Seq<u8> {
    vstd::utf8::encode_utf8(s)
}

/// Whether a character is a decimal digit.
pub open spec fn is_digit_c(c: char) -> bool {
    48 <= c as u32 <= 57
}

fn is_digit_char(c: char) -> (r: bool)
    ensures
        r == is_digit_c(c),
{
    let u = c as u32;
    48 <= u && u <= 57
}

/// Length of the leading run of characters that agree with `d` on being a
/// digit.
pub open spec fn run_len(s: Seq<char>, d: bool) -> int
    decreases s.len(),
{
    if s.len() == 0 || is_digit_c(s[0]) != d {
        0
    } else {
        1 + run_len(s.drop_first(), d)
    }
}

proof fn lemma_run_len_bounds(s: Seq<char>, d: bool)
    ensures
        0 <= run_len(s, d) <= s.len(),
        forall|j: int| 0 <= j < run_len(s, d) ==> is_digit_c(s[j]) == d,
        run_len(s, d) < s.len() ==> is_digit_c(s[run_len(s, d)]) != d,
    decreases s.len(),
{
    if s.len() > 0 && is_digit_c(s[0]) == d {
        lemma_run_len_bounds(s.drop_first(), d);
        assert forall|j: int| 0 <= j < run_len(s, d) implies is_digit_c(s[j]) == d by {
            if j > 0 {
                assert(s.drop_first()[j - 1] == s[j]);
            }
        }
        if run_len(s, d) < s.len() {
            assert(s.drop_first()[run_len(s.drop_first(), d)] == s[run_len(s, d)]);
        }
    }
}

/// Length of the leading run of `'0'` characters.
pub open spec fn zeros_len(s: Seq<char>) -> int
    decreases s.len(),
{
    if s.len() > 0 && s[0] == '0' {
        1 + zeros_len(s.drop_first())
    } else {
        0
    }
}

proof fn lemma_zeros_len_bounds(s: Seq<char>)
    ensures
        0 <= zeros_len(s) <= s.len(),
        forall|j: int| 0 <= j < zeros_len(s) ==> s[j] == '0',
        zeros_len(s) < s.len() ==> s[zeros_len(s)] != '0',
    decreases s.len(),
{
    if s.len() > 0 && s[0] == '0' {
        lemma_zeros_len_bounds(s.drop_first());
        assert forall|j: int| 0 <= j < zeros_len(s) implies s[j] == '0' by {
            if j > 0 {
                assert(s.drop_first()[j - 1] == s[j]);
            }
        }
        if zeros_len(s) < s.len() {
            assert(s.drop_first()[zeros_len(s.drop_first())] == s[zeros_len(s)]);
        }
    }
}

/// A name split into maximal digit and non-digit runs, each digit run with
/// its leading zeros removed.
pub open spec fn chunks_of(s: Seq<char>) -> Seq<Seq<char>>
    decreases s.len(),
    via chunks_of_decreases
{
    if s.len() == 0 {
        Seq::empty()
    } else {
        let n = run_len(s, is_digit_c(s[0]));
        let chunk = s.take(n);
        seq![chunk.skip(zeros_len(chunk))] + chunks_of(s.skip(n))
    }
}

#[via_fn]
proof fn chunks_of_decreases(s: Seq<char>) {
    if s.len() > 0 {
        lemma_run_len_bounds(s, is_digit_c(s[0]));
        assert(run_len(s, is_digit_c(s[0])) >= 1);
    }
}

/// Plain lexicographic order on character sequences, by character code; a
/// strict prefix comes first.
pub open spec fn lex_cmp(a: Seq<char>, b: Seq<char>) -> core::cmp::Ordering
    decreases a.len(),
{
    if a.len() == 0 && b.len() == 0 {
        core::cmp::Ordering::Equal
    } else if a.len() == 0 {
        core::cmp::Ordering::Less
    } else if b.len() == 0 {
        core::cmp::Ordering::Greater
    } else if a[0] != b[0] {
        if (a[0] as u32) < (b[0] as u32) {
            core::cmp::Ordering::Less
        } else {
            core::cmp::Ordering::Greater
        }
    } else {
        lex_cmp(a.drop_first(), b.drop_first())
    }
}

/// The kind of a chunk: one that starts with a digit, or is empty (as a
/// bare run of zeros becomes), counts as a number.
pub open spec fn chunk_kind_digit(c: Seq<char>) -> bool {
    c.len() == 0 || is_digit_c(c[0])
}

/// Order of two chunks. Two digit chunks compare as numbers: by length
/// first, then lexicographically. Any other pair compares
/// lexicographically.
pub open spec fn chunk_cmp(a: Seq<char>, b: Seq<char>) -> core::cmp::Ordering {
    if chunk_kind_digit(a) && chunk_kind_digit(b) {
        if a.len() < b.len() {
            core::cmp::Ordering::Less
        } else if a.len() > b.len() {
            core::cmp::Ordering::Greater
        } else {
            lex_cmp(a, b)
        }
    } else {
        lex_cmp(a, b)
    }
}

/// Order of two chunk lists: the first unequal chunk pair decides; a
/// strict prefix comes first.
pub open spec fn cmp_chunk_lists(x: Seq<Seq<char>>, y: Seq<Seq<char>>) -> core::cmp::Ordering
    decreases x.len(),
{
    if x.len() == 0 && y.len() == 0 {
        core::cmp::Ordering::Equal
    } else if x.len() == 0 {
        core::cmp::Ordering::Less
    } else if y.len() == 0 {
        core::cmp::Ordering::Greater
    } else if chunk_cmp(x[0], y[0]) == core::cmp::Ordering::Equal {
        cmp_chunk_lists(x.drop_first(), y.drop_first())
    } else {
        chunk_cmp(x[0], y[0])
    }
}

/// Start of the last `/`-separated segment of a name.
pub open spec fn seg_start(s: Seq<char>) -> int
    decreases s.len(),
{
    if s.len() == 0 {
        0
    } else if s[s.len() - 1] == '/' {
        s.len() as int
    } else {
        seg_start(s.take(s.len() - 1))
    }
}

proof fn lemma_seg_start_bounds(s: Seq<char>)
    ensures
        0 <= seg_start(s) <= s.len(),
        seg_start(s) > 0 ==> s[seg_start(s) - 1] == '/',
        forall|j: int| seg_start(s) <= j < s.len() ==> s[j] != '/',
    decreases s.len(),
{
    if s.len() > 0 && s[s.len() - 1] != '/' {
        lemma_seg_start_bounds(s.take(s.len() - 1));
        assert(forall|j: int| 0 <= j < s.len() - 1 ==> s.take(s.len() - 1)[j] == s[j]);
    }
}

/// The last `/`-separated segment of a name: the sort key of a sibling.
pub open spec fn last_seg(s: Seq<char>) -> Seq<char> {
    s.skip(seg_start(s))
}

/// Human order of two names: their last path segments are split into
/// digit and non-digit runs and the runs are compared in turn, digit runs
/// as numbers, so that `"bar 2"` comes before `"bar 10"`.
pub open spec fn spec_human_order(l: Seq<char>, r: Seq<char>) -> core::cmp::Ordering {
    cmp_chunk_lists(chunks_of(last_seg(l)), chunks_of(last_seg(r)))
}

pub(crate) fn chars_of(s: &str) -> (r: Vec<char>)
    ensures
        r@ == s@,
{
    let n = s.unicode_len();
    let mut r: Vec<char> = Vec::new();
    let mut i: usize = 0;
    while i < n
        invariant
            n == s@.len(),
            0 <= i <= n,
            r@ == s@.take(i as int),
        decreases n - i,
    {
        r.push(s.get_char(i));
        proof {
            assert(r@ =~= s@.take(i + 1));
        }
        i = i + 1;
    }
    proof {
        assert(s@.take(n as int) =~= s@);
    }
    r
}

pub(crate) fn sub_chars(v: &Vec<char>, i: usize, j: usize) -> (r: Vec<char>)
    requires
        i <= j <= v@.len(),
    ensures
        r@ == v@.subrange(i as int, j as int),
{
    let mut r: Vec<char> = Vec::new();
    let mut k: usize = i;
    while k < j
        invariant
            i <= k <= j <= v@.len(),
            r@ == v@.subrange(i as int, k as int),
        decreases j - k,
    {
        r.push(v[k]);
        proof {
            assert(r@ =~= v@.subrange(i as int, k + 1));
        }
        k = k + 1;
    }
    r
}

fn run_len_at(v: &Vec<char>, start: usize, d: bool) -> (n: usize)
    requires
        start <= v@.len(),
    ensures
        n as int == run_len(v@.skip(start as int), d),
        start + n <= v@.len(),
{
    let ghost s = v@.skip(start as int);
    let mut j: usize = start;
    while j < v.len() && is_digit_char(v[j]) == d
        invariant
            start <= j <= v@.len(),
            s == v@.skip(start as int),
            forall|k: int| 0 <= k < j - start ==> is_digit_c(s[k]) == d,
        decreases v@.len() - j,
    {
        j = j + 1;
    }
    proof {
        lemma_run_len_bounds(s, d);
        let e = j - start;
        let r = run_len(s, d);
        if e < r {
            assert(is_digit_c(s[e]) == d);
            assert(false);
        }
        if r < e {
            assert(is_digit_c(s[r]) == d);
            assert(false);
        }
    }
    j - start
}

fn zeros_len_at(v: &Vec<char>, start: usize, stop: usize) -> (n: usize)
    requires
        start <= stop <= v@.len(),
    ensures
        n as int == zeros_len(v@.subrange(start as int, stop as int)),
        start + n <= stop,
{
    let ghost s = v@.subrange(start as int, stop as int);
    let mut j: usize = start;
    while j < stop && v[j] == '0'
        invariant
            start <= j <= stop <= v@.len(),
            s == v@.subrange(start as int, stop as int),
            forall|k: int| 0 <= k < j - start ==> s[k] == '0',
        decreases stop - j,
    {
        j = j + 1;
    }
    proof {
        lemma_zeros_len_bounds(s);
        let e = j - start;
        let r = zeros_len(s);
        if e < r {
            assert(s[e] == '0');
            assert(false);
        }
        if r < e {
            assert(s[r] == '0');
            assert(false);
        }
    }
    j - start
}

/// The character sequences of a list of chunks.
pub open spec fn chunk_views(r: Seq<Vec<char>>) -> Seq<Seq<char>> {
    r.map_values(|c: Vec<char>| c@)
}

fn chunk_list(v: &Vec<char>, start: usize) -> (r: Vec<Vec<char>>)
    requires
        start <= v@.len(),
    ensures
        chunk_views(r@) == chunks_of(v@.skip(start as int)),
{
    let mut r: Vec<Vec<char>> = Vec::new();
    let mut i: usize = start;
    while i < v.len()
        invariant
            start <= i <= v@.len(),
            chunks_of(v@.skip(start as int)) =~= chunk_views(r@) + chunks_of(
                v@.skip(i as int),
            ),
        decreases v@.len() - i,
    {
        let ghost s = v@.skip(i as int);
        let d = is_digit_char(v[i]);
        let n = run_len_at(v, i, d);
        let z = zeros_len_at(v, i, i + n);
        let chunk = sub_chars(v, i + z, i + n);
        proof {
            assert(s[0] == v@[i as int]);
            assert(d == is_digit_c(s[0]));
            assert(s.take(n as int) =~= v@.subrange(i as int, i + n));
            assert(s.skip(n as int) =~= v@.skip(i + n));
            lemma_run_len_bounds(s, d);
            assert(chunk@ =~= s.take(n as int).skip(zeros_len(s.take(n as int))));
        }
        r.push(chunk);
        proof {
            assert(chunk_views(r@) =~= chunk_views(r@.drop_last()) + seq![chunk@]);
            assert(chunks_of(v@.skip(start as int)) =~= chunk_views(r@) + chunks_of(
                v@.skip((i + n) as int),
            ));
        }
        i = i + n;
    }
    proof {
        assert(chunks_of(v@.skip(i as int)) =~= Seq::<Seq<char>>::empty());
        assert(chunk_views(r@) + Seq::<Seq<char>>::empty() =~= chunk_views(r@));
    }
    r
}

proof fn lemma_lex_cmp_step(a: Seq<char>, b: Seq<char>, i: int)
    requires
        0 <= i < a.len(),
        0 <= i < b.len(),
    ensures
        lex_cmp(a.skip(i), b.skip(i)) == if a[i] != b[i] {
            if (a[i] as u32) < (b[i] as u32) {
                core::cmp::Ordering::Less
            } else {
                core::cmp::Ordering::Greater
            }
        } else {
            lex_cmp(a.skip(i + 1), b.skip(i + 1))
        },
{
    assert(a.skip(i)[0] == a[i]);
    assert(b.skip(i)[0] == b[i]);
    assert(a.skip(i).drop_first() =~= a.skip(i + 1));
    assert(b.skip(i).drop_first() =~= b.skip(i + 1));
}

fn lex_cmp_exec(a: &Vec<char>, b: &Vec<char>) -> (o: core::cmp::Ordering)
    ensures
        o == lex_cmp(a@, b@),
{
    proof {
        assert(a@.skip(0) =~= a@);
        assert(b@.skip(0) =~= b@);
    }
    let mut i: usize = 0;
    loop
        invariant
            0 <= i <= a@.len(),
            0 <= i <= b@.len(),
            lex_cmp(a@, b@) == lex_cmp(a@.skip(i as int), b@.skip(i as int)),
        decreases a@.len() - i,
    {
        if i == a.len() && i == b.len() {
            proof {
                assert(a@.skip(i as int) =~= Seq::<char>::empty());
                assert(b@.skip(i as int) =~= Seq::<char>::empty());
            }
            return core::cmp::Ordering::Equal;
        }
        if i == a.len() {
            proof {
                assert(a@.skip(i as int) =~= Seq::<char>::empty());
            }
            return core::cmp::Ordering::Less;
        }
        if i == b.len() {
            proof {
                assert(b@.skip(i as int) =~= Seq::<char>::empty());
            }
            return core::cmp::Ordering::Greater;
        }
        proof {
            lemma_lex_cmp_step(a@, b@, i as int);
        }
        let ca = a[i];
        let cb = b[i];
        if ca != cb {
            if (ca as u32) < (cb as u32) {
                return core::cmp::Ordering::Less;
            } else {
                return core::cmp::Ordering::Greater;
            }
        }
        i = i + 1;
    }
}

fn chunk_cmp_exec(a: &Vec<char>, b: &Vec<char>) -> (o: core::cmp::Ordering)
    ensures
        o == chunk_cmp(a@, b@),
{
    let da = a.len() == 0 || is_digit_char(a[0]);
    let db = b.len() == 0 || is_digit_char(b[0]);
    if da && db {
        if a.len() < b.len() {
            core::cmp::Ordering::Less
        } else if a.len() > b.len() {
            core::cmp::Ordering::Greater
        } else {
            lex_cmp_exec(a, b)
        }
    } else {
        lex_cmp_exec(a, b)
    }
}

proof fn lemma_cmp_chunk_lists_step(x: Seq<Seq<char>>, y: Seq<Seq<char>>, i: int)
    requires
        0 <= i < x.len(),
        0 <= i < y.len(),
    ensures
        cmp_chunk_lists(x.skip(i), y.skip(i)) == if chunk_cmp(x[i], y[i])
            == core::cmp::Ordering::Equal {
            cmp_chunk_lists(x.skip(i + 1), y.skip(i + 1))
        } else {
            chunk_cmp(x[i], y[i])
        },
{
    assert(x.skip(i)[0] == x[i]);
    assert(y.skip(i)[0] == y[i]);
    assert(x.skip(i).drop_first() =~= x.skip(i + 1));
    assert(y.skip(i).drop_first() =~= y.skip(i + 1));
}

fn cmp_chunk_lists_exec(x: &Vec<Vec<char>>, y: &Vec<Vec<char>>) -> (o: core::cmp::Ordering)
    ensures
        o == cmp_chunk_lists(chunk_views(x@), chunk_views(y@)),
{
    let ghost xv = chunk_views(x@);
    let ghost yv = chunk_views(y@);
    proof {
        assert(xv.skip(0) =~= xv);
        assert(yv.skip(0) =~= yv);
    }
    let mut i: usize = 0;
    loop
        invariant
            0 <= i <= x@.len(),
            0 <= i <= y@.len(),
            xv == chunk_views(x@),
            yv == chunk_views(y@),
            xv.len() == x@.len(),
            yv.len() == y@.len(),
            forall|j: int| 0 <= j < x@.len() ==> xv[j] == x@[j]@,
            forall|j: int| 0 <= j < y@.len() ==> yv[j] == y@[j]@,
            cmp_chunk_lists(xv, yv) == cmp_chunk_lists(xv.skip(i as int), yv.skip(i as int)),
        decreases x@.len() - i,
    {
        if i == x.len() && i == y.len() {
            proof {
                assert(xv.skip(i as int) =~= Seq::<Seq<char>>::empty());
                assert(yv.skip(i as int) =~= Seq::<Seq<char>>::empty());
            }
            return core::cmp::Ordering::Equal;
        }
        if i == x.len() {
            proof {
                assert(xv.skip(i as int) =~= Seq::<Seq<char>>::empty());
            }
            return core::cmp::Ordering::Less;
        }
        if i == y.len() {
            proof {
                assert(yv.skip(i as int) =~= Seq::<Seq<char>>::empty());
            }
            return core::cmp::Ordering::Greater;
        }
        proof {
            lemma_cmp_chunk_lists_step(xv, yv, i as int);
        }
        let o = chunk_cmp_exec(&x[i], &y[i]);
        if !matches!(o, core::cmp::Ordering::Equal) {
            return o;
        }
        i = i + 1;
    }
}

pub(crate) fn seg_start_exec(v: &Vec<char>) -> (p: usize)
    ensures
        p as int == seg_start(v@),
        p <= v@.len(),
{
    let mut j: usize = v.len();
    while j > 0 && v[j - 1] != '/'
        invariant
            0 <= j <= v@.len(),
            forall|k: int| j <= k < v@.len() ==> v@[k] != '/',
        decreases j,
    {
        j = j - 1;
    }
    proof {
        lemma_seg_start_bounds(v@);
        let r = seg_start(v@);
        let e = j as int;
        if e < r {
            assert(v@[r - 1] == '/');
            assert(false);
        }
        if r < e {
            assert(v@[e - 1] != '/');
            assert(false);
        }
    }
    j
}

/// The opposite of an ordering.
pub open spec fn ord_reverse(o: core::cmp::Ordering) -> core::cmp::Ordering {
    match o {
        core::cmp::Ordering::Less => core::cmp::Ordering::Greater,
        core::cmp::Ordering::Equal => core::cmp::Ordering::Equal,
        core::cmp::Ordering::Greater => core::cmp::Ordering::Less,
    }
}

proof fn lemma_lex_refl(a: Seq<char>)
    ensures
        lex_cmp(a, a) == core::cmp::Ordering::Equal,
    decreases a.len(),
{
    if a.len() > 0 {
        lemma_lex_refl(a.drop_first());
    }
}

proof fn lemma_lex_eq(a: Seq<char>, b: Seq<char>)
    requires
        lex_cmp(a, b) == core::cmp::Ordering::Equal,
    ensures
        a == b,
    decreases a.len(),
{
    if a.len() > 0 {
        lemma_lex_eq(a.drop_first(), b.drop_first());
        assert(a =~= seq![a[0]] + a.drop_first());
        assert(b =~= seq![b[0]] + b.drop_first());
    } else {
        assert(a =~= b);
    }
}

proof fn lemma_lex_antisym(a: Seq<char>, b: Seq<char>)
    ensures
        lex_cmp(b, a) == ord_reverse(lex_cmp(a, b)),
    decreases a.len(),
{
    if a.len() > 0 && b.len() > 0 {
        if a[0] == b[0] {
            lemma_lex_antisym(a.drop_first(), b.drop_first());
        } else {
            assert(a[0] as u32 != b[0] as u32) by {
                vstd::utf8::char_u32_cast(a[0], a[0] as u32);
                vstd::utf8::char_u32_cast(b[0], b[0] as u32);
            }
        }
    }
}

proof fn lemma_lex_trans(a: Seq<char>, b: Seq<char>, c: Seq<char>)
    requires
        lex_cmp(a, b) != core::cmp::Ordering::Greater,
        lex_cmp(b, c) != core::cmp::Ordering::Greater,
    ensures
        lex_cmp(a, c) != core::cmp::Ordering::Greater,
    decreases a.len(),
{
    if a.len() > 0 {
        if b.len() > 0 && c.len() > 0 && a[0] == b[0] && b[0] == c[0] {
            lemma_lex_trans(a.drop_first(), b.drop_first(), c.drop_first());
        }
    }
}

proof fn lemma_chunk_eq(a: Seq<char>, b: Seq<char>)
    requires
        chunk_cmp(a, b) == core::cmp::Ordering::Equal,
    ensures
        a == b,
{
    lemma_lex_eq(a, b);
}

proof fn lemma_chunk_antisym(a: Seq<char>, b: Seq<char>)
    ensures
        chunk_cmp(b, a) == ord_reverse(chunk_cmp(a, b)),
{
    lemma_lex_antisym(a, b);
    if chunk_kind_digit(a) && chunk_kind_digit(b) && a.len() == b.len() {
        if lex_cmp(a, b) == core::cmp::Ordering::Equal {
            lemma_lex_eq(a, b);
        }
    }
}

/// A lexicographic non-loss pins the first characters: either the left
/// side is empty, or both start and the left code is at most the right.
proof fn lemma_lex_le_first(a: Seq<char>, b: Seq<char>)
    requires
        lex_cmp(a, b) != core::cmp::Ordering::Greater,
    ensures
        a.len() == 0 || (b.len() > 0 && (a[0] as u32) <= (b[0] as u32)),
{
    if a.len() > 0 && b.len() > 0 && a[0] != b[0] {
        assert(a[0] as u32 != b[0] as u32) by {
            vstd::utf8::char_u32_cast(a[0], a[0] as u32);
            vstd::utf8::char_u32_cast(b[0], b[0] as u32);
        }
    }
}

/// A strictly smaller first character decides a lexicographic comparison.
proof fn lemma_lex_first_lt(a: Seq<char>, b: Seq<char>)
    requires
        a.len() > 0,
        b.len() > 0,
        (a[0] as u32) < (b[0] as u32),
    ensures
        lex_cmp(a, b) == core::cmp::Ordering::Less,
{
    assert(a[0] != b[0]);
}

/// Distinct characters have distinct codes.
proof fn lemma_char_codes_distinct(x: char, y: char)
    requires
        x != y,
    ensures
        (x as u32) != (y as u32),
{
    vstd::utf8::char_u32_cast(x, x as u32);
    vstd::utf8::char_u32_cast(y, y as u32);
}

proof fn lemma_chunk_trans(a: Seq<char>, b: Seq<char>, c: Seq<char>)
    requires
        chunk_cmp(a, b) != core::cmp::Ordering::Greater,
        chunk_cmp(b, c) != core::cmp::Ordering::Greater,
    ensures
        chunk_cmp(a, c) != core::cmp::Ordering::Greater,
{
    let da = chunk_kind_digit(a);
    let db = chunk_kind_digit(b);
    let dc = chunk_kind_digit(c);
    if da && db && dc {
        if a.len() == c.len() {
            lemma_lex_trans(a, b, c);
        }
        return;
    }
    // Some chunk is not digit-kind, hence starts with a character outside
    // the contiguous digit range 48..=57. Every comparison out of such a
    // chunk goes by characters, and is decided at the first one whenever
    // the kinds differ, so no cycle across kinds can arise.
    if a.len() == 0 {
        // The empty chunk never loses to anything under either rule.
        return;
    }
    if !da && !db && !dc {
        lemma_lex_trans(a, b, c);
        return;
    }
    if da && db {
        // (a, b) by length; c is not digit-kind and sits above every digit.
        if b.len() == 0 {
            assert(a.len() == 0);
        } else {
            lemma_lex_le_first(b, c);
            if b[0] != c[0] {
                lemma_char_codes_distinct(b[0], c[0]);
            }
            assert((c[0] as u32) > 57);
            lemma_lex_first_lt(a, c);
        }
        return;
    }
    if da {
        // a digit-kind, b not: b sits above every digit.
        lemma_lex_le_first(a, b);
        if a[0] != b[0] {
            lemma_char_codes_distinct(a[0], b[0]);
        }
        assert((b[0] as u32) > 57);
        if dc {
            // b back below a digit chunk is impossible.
            if c.len() == 0 {
                assert(lex_cmp(b, c) == core::cmp::Ordering::Greater);
            } else {
                lemma_lex_le_first(b, c);
                assert((c[0] as u32) <= 57);
                assert(false);
            }
        } else {
            lemma_lex_le_first(b, c);
            lemma_lex_first_lt(a, c);
        }
        return;
    }
    // a is not digit-kind; its comparisons go by characters.
    lemma_lex_le_first(a, b);
    assert(b.len() > 0);
    if db {
        // b digit-kind: a sits below every digit.
        assert(is_digit_c(b[0]));
        if a[0] != b[0] {
            lemma_char_codes_distinct(a[0], b[0]);
        }
        assert((a[0] as u32) < 48);
        if dc {
            // (b, c) by length keeps c at least as long as b.
            assert(c.len() >= b.len());
            assert(is_digit_c(c[0]));
            lemma_lex_first_lt(a, c);
        } else {
            lemma_lex_le_first(b, c);
            lemma_lex_first_lt(a, c);
        }
    } else {
        lemma_lex_le_first(b, c);
        if dc {
            // b sits below every digit, and a no higher than b.
            if c.len() == 0 {
                assert(lex_cmp(b, c) == core::cmp::Ordering::Greater);
            } else {
                assert(is_digit_c(c[0]));
                if b[0] != c[0] {
                    lemma_char_codes_distinct(b[0], c[0]);
                }
                assert((b[0] as u32) < 48);
                lemma_lex_first_lt(a, c);
            }
        } else {
            lemma_lex_trans(a, b, c);
        }
    }
}

proof fn lemma_lists_refl(x: Seq<Seq<char>>)
    ensures
        cmp_chunk_lists(x, x) == core::cmp::Ordering::Equal,
    decreases x.len(),
{
    if x.len() > 0 {
        lemma_lex_refl(x[0]);
        lemma_lists_refl(x.drop_first());
    }
}

proof fn lemma_lists_eq(x: Seq<Seq<char>>, y: Seq<Seq<char>>)
    requires
        cmp_chunk_lists(x, y) == core::cmp::Ordering::Equal,
    ensures
        x == y,
    decreases x.len(),
{
    if x.len() > 0 {
        lemma_chunk_eq(x[0], y[0]);
        lemma_lists_eq(x.drop_first(), y.drop_first());
        assert(x =~= seq![x[0]] + x.drop_first());
        assert(y =~= seq![y[0]] + y.drop_first());
    } else {
        assert(x =~= y);
    }
}

proof fn lemma_lists_antisym(x: Seq<Seq<char>>, y: Seq<Seq<char>>)
    ensures
        cmp_chunk_lists(y, x) == ord_reverse(cmp_chunk_lists(x, y)),
    decreases x.len(),
{
    if x.len() > 0 && y.len() > 0 {
        lemma_chunk_antisym(x[0], y[0]);
        if chunk_cmp(x[0], y[0]) == core::cmp::Ordering::Equal {
            lemma_lists_antisym(x.drop_first(), y.drop_first());
        }
    }
}

proof fn lemma_lists_trans(x: Seq<Seq<char>>, y: Seq<Seq<char>>, z: Seq<Seq<char>>)
    requires
        cmp_chunk_lists(x, y) != core::cmp::Ordering::Greater,
        cmp_chunk_lists(y, z) != core::cmp::Ordering::Greater,
    ensures
        cmp_chunk_lists(x, z) != core::cmp::Ordering::Greater,
    decreases x.len(),
{
    if x.len() == 0 {
        return;
    }
    assert(y.len() > 0);
    assert(z.len() > 0);
    let cxy = chunk_cmp(x[0], y[0]);
    let cyz = chunk_cmp(y[0], z[0]);
    if cxy == core::cmp::Ordering::Equal {
        lemma_chunk_eq(x[0], y[0]);
        if cyz == core::cmp::Ordering::Equal {
            lemma_chunk_eq(y[0], z[0]);
            lemma_lists_trans(x.drop_first(), y.drop_first(), z.drop_first());
        }
    } else {
        if cyz == core::cmp::Ordering::Equal {
            lemma_chunk_eq(y[0], z[0]);
        } else {
            lemma_chunk_trans(x[0], y[0], z[0]);
            if chunk_cmp(x[0], z[0]) == core::cmp::Ordering::Equal {
                lemma_chunk_eq(x[0], z[0]);
                lemma_chunk_antisym(x[0], y[0]);
                assert(false);
            }
        }
    }
}

/// Every name equals itself in human order.
pub proof fn lemma_human_order_reflexive(a: Seq<char>)
    ensures
        spec_human_order(a, a) == core::cmp::Ordering::Equal,
{
    lemma_lists_refl(chunks_of(last_seg(a)));
}

/// Two names are equal in human order exactly when they have the same sort
/// key, so equality is symmetric: duplicates under the order are real
/// duplicates of the key.
pub proof fn lemma_human_order_equal_is_same_key(l: Seq<char>, r: Seq<char>)
    requires
        spec_human_order(l, r) == core::cmp::Ordering::Equal,
    ensures
        chunks_of(last_seg(l)) == chunks_of(last_seg(r)),
        spec_human_order(r, l) == core::cmp::Ordering::Equal,
{
    lemma_lists_eq(chunks_of(last_seg(l)), chunks_of(last_seg(r)));
    lemma_lists_refl(chunks_of(last_seg(r)));
}

/// Human order is antisymmetric: swapping the arguments reverses the
/// answer.
pub proof fn lemma_human_order_antisymmetric(l: Seq<char>, r: Seq<char>)
    ensures
        spec_human_order(r, l) == ord_reverse(spec_human_order(l, r)),
{
    lemma_lists_antisym(chunks_of(last_seg(l)), chunks_of(last_seg(r)));
}

/// Human order is transitive, so together with the two lemmas above it is
/// a total order on names: any two names compare, equal names share one
/// key, and the comparison never cycles.
pub proof fn lemma_human_order_transitive(a: Seq<char>, b: Seq<char>, c: Seq<char>)
    requires
        spec_human_order(a, b) != core::cmp::Ordering::Greater,
        spec_human_order(b, c) != core::cmp::Ordering::Greater,
    ensures
        spec_human_order(a, c) != core::cmp::Ordering::Greater,
{
    lemma_lists_trans(
        chunks_of(last_seg(a)),
        chunks_of(last_seg(b)),
        chunks_of(last_seg(c)),
    );
}

/// A list is in human order when no earlier member comes after a later one.
pub open spec fn human_sorted(s: Seq<Seq<char>>) -> bool {
    forall|i: int, j: int|
        0 <= i < j < s.len() ==> spec_human_order(s[i], s[j]) != core::cmp::Ordering::Greater
}

/// Removing members of a human-ordered list, duplicates included, keeps
/// the rest in human order: the order is stable under duplicate removal.
pub proof fn lemma_human_order_stable_under_removal(s: Seq<Seq<char>>, keep: Seq<int>)
    requires
        human_sorted(s),
        forall|k: int| 0 <= k < keep.len() ==> 0 <= #[trigger] keep[k] < s.len(),
        forall|k1: int, k2: int| 0 <= k1 < k2 < keep.len() ==> keep[k1] < keep[k2],
    ensures
        human_sorted(keep.map_values(|i: int| s[i])),
{
    let t = keep.map_values(|i: int| s[i]);
    assert forall|i: int, j: int| 0 <= i < j < t.len() implies spec_human_order(t[i], t[j])
        != core::cmp::Ordering::Greater by {
        assert(t[i] == s[keep[i]]);
        assert(t[j] == s[keep[j]]);
        assert(keep[i] < keep[j]);
    }
}

/// Compares two names in human order: the last path segment of each is
/// split into digit and non-digit runs; digit runs (leading zeros
/// dropped) compare among themselves as numbers, every other pair of runs
/// compares lexicographically.
pub fn human_order(l: &str, r: &str) -> (o: core::cmp::Ordering)
    ensures
        o == spec_human_order(l@, r@),
{
    let lc = chars_of(l);
    let rc = chars_of(r);
    let ls = seg_start_exec(&lc);
    let rs = seg_start_exec(&rc);
    let lch = chunk_list(&lc, ls);
    let rch = chunk_list(&rc, rs);
    cmp_chunk_lists_exec(&lch, &rch)
}

} // verus!
