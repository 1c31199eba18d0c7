//! The transcode cache: per object id, a short list of built targets.

use vstd::prelude::*;

verus! {

/// Bounded store of transcoded bodies, keyed by object id, each id with a
/// small list of (target format, media handle) pairs. The least recently
/// used id is evicted when a new one would exceed the capacity. `T` stands
/// for the media handle the server keeps for a running transcode.
pub struct TranscodeCache<T> {
    entries: Vec<(String, Vec<(crate::ffmpeg::Format, T)>)>,
    capacity: usize,
}

impl<T: Copy> TranscodeCache<T> {
    /// The most recently used id sits at the end; eviction takes the front.
    pub closed spec fn entries_view(self) -> Seq<(String, Vec<(crate::ffmpeg::Format, T)>)> {
        self.entries@
    }

    pub closed spec fn spec_capacity(self) -> int {
        self.capacity as int
    }

    /// Well-formed: within capacity, ids unique, and within one id no two
    /// cached targets share a format.
    pub open spec fn wf(self) -> bool {
        &&& self.spec_capacity() >= 1
        &&& self.entries_view().len() <= self.spec_capacity()
        &&& forall|i: int, j: int|
            0 <= i < j < self.entries_view().len() ==> self.entries_view()[i].0@
                != self.entries_view()[j].0@
        &&& forall|i: int, k: int, l: int|
            0 <= i < self.entries_view().len() && 0 <= k < l < self.entries_view()[i].1@.len()
                ==> !crate::ffmpeg::feq(
                self.entries_view()[i].1@[k].0,
                self.entries_view()[i].1@[l].0,
            )
    }

    /// Whether an id is cached.
    pub open spec fn has_key(self, key: Seq<char>) -> bool {
        exists|i: int| 0 <= i < self.entries_view().len() && self.entries_view()[i].0@ == key
    }

    pub open spec fn key_idx(self, key: Seq<char>) -> int {
        choose|i: int| 0 <= i < self.entries_view().len() && self.entries_view()[i].0@ == key
    }

    /// The cached (target, handle) pairs of an id.
    pub open spec fn entry_list(self, key: Seq<char>) -> Seq<(crate::ffmpeg::Format, T)> {
        self.entries_view()[self.key_idx(key)].1@
    }

    /// Whether an id has a cached target fit for the device.
    pub open spec fn has_media_for(self, key: Seq<char>, d: crate::ffmpeg::Device) -> bool {
        self.has_key(key) && exists|k: int|
            0 <= k < self.entry_list(key).len() && crate::ffmpeg::spec_compatible(
                self.entry_list(key)[k].0,
                d,
            )
    }

    /// An empty cache for ten ids.
    pub fn new() -> (r: Self)
        ensures
            r.wf(),
            r.entries_view().len() == 0,
            r.spec_capacity() == 10,
    {
        TranscodeCache { entries: Vec::new(), capacity: 10 }
    }

    fn find_index(&self, id: &str) -> (r: Option<usize>)
        ensures
            match r {
                Some(i) => i < self.entries_view().len() && self.entries_view()[i as int].0@
                    == id@,
                None => !self.has_key(id@),
            },
    {
        let mut i: usize = 0;
        while i < self.entries.len()
            invariant
                0 <= i <= self.entries@.len(),
                forall|j: int| 0 <= j < i ==> self.entries@[j].0@ != id@,
            decreases self.entries@.len() - i,
        {
            if crate::ffmpeg::str_eq(self.entries[i].0.as_str(), id) {
                return Some(i);
            }
            i = i + 1;
        }
        None
    }

    /// Looks for a cached body of `id` that already fits the device, and
    /// marks the id as most recently used. The cache's contents do not
    /// change.
    pub fn lookup(&mut self, id: &str, device: &crate::ffmpeg::Device) -> (r: Option<T>)
        requires
            old(self).wf(),
        ensures
            final(self).wf(),
            final(self).spec_capacity() == old(self).spec_capacity(),
            forall|key: Seq<char>| final(self).has_key(key) == old(self).has_key(key),
            forall|key: Seq<char>|
                old(self).has_key(key) ==> final(self).entry_list(key) == old(self).entry_list(
                    key,
                ),
            match r {
                Some(t) => old(self).has_key(id@) && exists|k: int|
                    0 <= k < old(self).entry_list(id@).len() && crate::ffmpeg::spec_compatible(
                        old(self).entry_list(id@)[k].0,
                        *device,
                    ) && old(self).entry_list(id@)[k].1 == t,
                None => !old(self).has_media_for(id@, *device),
            },
    {
        let idx = match self.find_index(id) {
            None => {
                return None;
            },
            Some(i) => i,
        };
        let r = scan_compatible(&self.entries[idx].1, device);
        let ghost pre = *self;
        proof {
            lemma_unique_key_idx(pre, id@, idx as int);
        }
        let e = self.entries.remove(idx);
        self.entries.push(e);
        proof {
            lemma_promote_keeps_cache(pre, *self, idx as int);
        }
        r
    }
}

impl<T: Copy> TranscodeCache<T> {
    /// Stores a freshly built body for `(id, format)` and returns the
    /// handle to use. When the same target is already cached the existing
    /// handle comes back and nothing is added, so each (id, target) holds
    /// at most one body. A new id evicts the least recently used one when
    /// the cache is full.
    #[verifier::rlimit(50)]
    pub fn insert(&mut self, id: &str, format: crate::ffmpeg::Format, t: T) -> (r: T)
        requires
            old(self).wf(),
        ensures
            final(self).wf(),
            final(self).spec_capacity() == old(self).spec_capacity(),
            final(self).has_key(id@),
            exists|k: int|
                0 <= k < final(self).entry_list(id@).len() && crate::ffmpeg::feq(
                    #[trigger] final(self).entry_list(id@)[k].0,
                    format,
                ) && final(self).entry_list(id@)[k].1 == r,
            forall|key: Seq<char>|
                key != id@ && final(self).has_key(key) ==> old(self).has_key(key)
                    && final(self).entry_list(key) == old(self).entry_list(key),
            old(self).has_key(id@) ==> forall|key: Seq<char>|
                old(self).has_key(key) ==> final(self).has_key(key),
            old(self).has_key(id@) && (exists|k: int|
                0 <= k < old(self).entry_list(id@).len() && crate::ffmpeg::feq(
                    #[trigger] old(self).entry_list(id@)[k].0,
                    format,
                )) ==> final(self).entry_list(id@) == old(self).entry_list(id@) && exists|k: int|
                0 <= k < old(self).entry_list(id@).len() && crate::ffmpeg::feq(
                    #[trigger] old(self).entry_list(id@)[k].0,
                    format,
                ) && old(self).entry_list(id@)[k].1 == r,
            old(self).has_key(id@) && !(exists|k: int|
                0 <= k < old(self).entry_list(id@).len() && crate::ffmpeg::feq(
                    #[trigger] old(self).entry_list(id@)[k].0,
                    format,
                )) ==> final(self).entry_list(id@) == old(self).entry_list(id@).push((format, t))
                && r == t,
            !old(self).has_key(id@) ==> final(self).entry_list(id@) == seq![(format, t)] && r == t,
            !old(self).has_key(id@) && old(self).entries_view().len() < old(self).spec_capacity()
                ==> forall|key: Seq<char>| old(self).has_key(key) ==> final(self).has_key(key),
            final(self).entries_view().len() == if old(self).has_key(id@)
                || old(self).entries_view().len() >= old(self).spec_capacity() {
                old(self).entries_view().len() as int
            } else {
                old(self).entries_view().len() + 1int
            },
            !old(self).has_key(id@) && old(self).entries_view().len() >= old(self).spec_capacity()
                ==> !final(self).has_key(old(self).entries_view()[0].0@) && forall|key: Seq<char>|
                old(self).has_key(key) && key != old(self).entries_view()[0].0@
                    ==> final(self).has_key(key),
    {
        let ghost pre = *self;
        match self.find_index(id) {
            Some(i) => {
                proof {
                    lemma_unique_key_idx(pre, id@, i as int);
                }
                match scan_feq(&self.entries[i].1, &format) {
                    Some(tok) => {
                        let e = self.entries.remove(i);
                        self.entries.push(e);
                        proof {
                            lemma_promote_keeps_cache(pre, *self, i as int);
                            assert(self.entry_list(id@) == pre.entry_list(id@));
                            let k = choose|k: int|
                                0 <= k < pre.entry_list(id@).len() && crate::ffmpeg::feq(
                                    #[trigger] pre.entry_list(id@)[k].0,
                                    format,
                                ) && pre.entry_list(id@)[k].1 == tok;
                            assert(crate::ffmpeg::feq(self.entry_list(id@)[k].0, format));
                        }
                        tok
                    },
                    None => {
                        proof {
                            crate::ffmpeg::lemma_feq_reflexive(format);
                        }
                        let mut e = self.entries.remove(i);
                        e.1.push((format, t));
                        self.entries.push(e);
                        proof {
                            lemma_update_keeps_cache(pre, *self, i as int);
                            assert(self.entry_list(id@) == pre.entry_list(id@).push(
                                (format, t),
                            ));
                            let n = pre.entry_list(id@).len() as int;
                            assert(self.entry_list(id@)[n] == (format, t));
                            assert(crate::ffmpeg::feq(self.entry_list(id@)[n].0, format));
                        }
                        t
                    },
                }
            },
            None => {
                if self.entries.len() >= self.capacity {
                    let _ = self.entries.remove(0);
                    proof {
                        lemma_evict_front(pre, *self);
                    }
                }
                proof {
                    crate::ffmpeg::lemma_feq_reflexive(format);
                }
                let ghost mid = *self;
                let mut list: Vec<(crate::ffmpeg::Format, T)> = Vec::new();
                list.push((format, t));
                self.entries.push((String::from_str(id), list));
                proof {
                    lemma_add_new_key(mid, *self, id@);
                    assert(self.entry_list(id@) =~= seq![(format, t)]);
                    assert(self.entry_list(id@)[0] == (format, t));
                    assert(crate::ffmpeg::feq(self.entry_list(id@)[0].0, format));
                }
                t
            },
        }
    }
}

/// The media handles of a list of cache entries, in storage order.
pub open spec fn spec_tokens<T>(s: Seq<(String, Vec<(crate::ffmpeg::Format, T)>)>) -> Seq<T>
    decreases s.len(),
{
    if s.len() == 0 {
        Seq::empty()
    } else {
        s[0].1@.map_values(|p: (crate::ffmpeg::Format, T)| p.1) + spec_tokens(s.drop_first())
    }
}

proof fn lemma_tokens_snoc<T>(s: Seq<(String, Vec<(crate::ffmpeg::Format, T)>)>, i: int)
    requires
        0 <= i < s.len(),
    ensures
        spec_tokens(s.take(i + 1)) == spec_tokens(s.take(i)) + s[i].1@.map_values(
            |p: (crate::ffmpeg::Format, T)| p.1,
        ),
    decreases i,
{
    let m = |e: (String, Vec<(crate::ffmpeg::Format, T)>)|
        e.1@.map_values(|p: (crate::ffmpeg::Format, T)| p.1);
    if i == 0 {
        assert(s.take(1)[0] == s[0]);
        assert(s.take(1).drop_first() =~= s.take(0));
        assert(spec_tokens(s.take(0)) =~= Seq::<T>::empty());
        assert(m(s[0]) + Seq::<T>::empty() =~= m(s[0]));
        assert(Seq::<T>::empty() + m(s[0]) =~= m(s[0]));
    } else {
        lemma_tokens_snoc(s.drop_first(), i - 1);
        assert(s.take(i + 1)[0] == s[0]);
        assert(s.take(i + 1).drop_first() =~= s.drop_first().take(i));
        assert(s.take(i)[0] == s[0]);
        assert(s.take(i).drop_first() =~= s.drop_first().take(i - 1));
        assert(s.drop_first()[i - 1] == s[i]);
        assert(m(s[0]) + (spec_tokens(s.drop_first().take(i - 1)) + m(s[i])) =~= (m(s[0])
            + spec_tokens(s.drop_first().take(i - 1))) + m(s[i]));
    }
}

impl<T: Copy> TranscodeCache<T> {
    /// Every media handle the cache still holds, so the surrounding
    /// process can release the bodies of evicted entries.
    pub fn tokens(&self) -> (r: Vec<T>)
        ensures
            r@ == spec_tokens(self.entries_view()),
    {
        let mut r: Vec<T> = Vec::new();
        let mut i: usize = 0;
        proof {
            assert(spec_tokens(self.entries@.take(0)) =~= Seq::<T>::empty());
        }
        while i < self.entries.len()
            invariant
                0 <= i <= self.entries@.len(),
                r@ == spec_tokens(self.entries@.take(i as int)),
            decreases self.entries@.len() - i,
        {
            proof {
                lemma_tokens_snoc(self.entries@, i as int);
            }
            let ghost rs = r@;
            let mut k: usize = 0;
            proof {
                assert(self.entries@[i as int].1@.take(0).map_values(
                    |p: (crate::ffmpeg::Format, T)| p.1,
                ) =~= Seq::<T>::empty());
                assert(rs + Seq::<T>::empty() =~= rs);
            }
            while k < self.entries[i].1.len()
                invariant
                    0 <= i < self.entries@.len(),
                    0 <= k <= self.entries@[i as int].1@.len(),
                    rs == spec_tokens(self.entries@.take(i as int)),
                    r@ == rs + self.entries@[i as int].1@.take(k as int).map_values(
                        |p: (crate::ffmpeg::Format, T)| p.1,
                    ),
                decreases self.entries@[i as int].1@.len() - k,
            {
                r.push(self.entries[i].1[k].1);
                proof {
                    assert(rs + self.entries@[i as int].1@.take(k + 1).map_values(
                        |p: (crate::ffmpeg::Format, T)| p.1,
                    ) =~= (rs + self.entries@[i as int].1@.take(k as int).map_values(
                        |p: (crate::ffmpeg::Format, T)| p.1,
                    )).push(self.entries@[i as int].1@[k as int].1));
                }
                k = k + 1;
            }
            proof {
                assert(self.entries@[i as int].1@.take(self.entries@[i as int].1@.len() as int)
                    =~= self.entries@[i as int].1@);
            }
            i = i + 1;
        }
        proof {
            assert(self.entries@.take(self.entries@.len() as int) =~= self.entries@);
        }
        r
    }
}

/// A cached body whose target equals the device's plan serves that
/// device: once one request has stored the planned transcode for an id,
/// every later request for the same id and device finds it, so concurrent
/// and subsequent requests share the one body.
pub proof fn lemma_cached_plan_is_served<T: Copy>(
    c: TranscodeCache<T>,
    id: Seq<char>,
    t: crate::ffmpeg::Format,
    d: crate::ffmpeg::Device,
)
    requires
        c.wf(),
        c.has_key(id),
        exists|k: int|
            0 <= k < c.entry_list(id).len() && crate::ffmpeg::feq(
                #[trigger] c.entry_list(id)[k].0,
                t,
            ),
        crate::ffmpeg::spec_compatible(t, d),
    ensures
        c.has_media_for(id, d),
{
    let k = choose|k: int|
        0 <= k < c.entry_list(id).len() && crate::ffmpeg::feq(
            #[trigger] c.entry_list(id)[k].0,
            t,
        );
    crate::ffmpeg::lemma_feq_same_compatibility(c.entry_list(id)[k].0, t, d);
    assert(crate::ffmpeg::spec_compatible(c.entry_list(id)[k].0, d));
}

/// Within one id the cache never holds two bodies for the same target:
/// for every pair of cached entries of an id their formats differ, so at
/// most one transcode per (id, target) is ever kept or running.
pub proof fn lemma_at_most_one_per_target<T: Copy>(
    c: TranscodeCache<T>,
    key: Seq<char>,
    k: int,
    l: int,
)
    requires
        c.wf(),
        c.has_key(key),
        0 <= k < l < c.entry_list(key).len(),
    ensures
        !crate::ffmpeg::feq(c.entry_list(key)[k].0, c.entry_list(key)[l].0),
{
}

fn scan_feq<T: Copy>(
    list: &Vec<(crate::ffmpeg::Format, T)>,
    f: &crate::ffmpeg::Format,
) -> (r: Option<T>)
    ensures
        match r {
            Some(t) => exists|k: int|
                0 <= k < list@.len() && crate::ffmpeg::feq(#[trigger] list@[k].0, *f)
                    && list@[k].1 == t,
            None => forall|k: int|
                0 <= k < list@.len() ==> !crate::ffmpeg::feq(#[trigger] list@[k].0, *f),
        },
{
    let mut k: usize = 0;
    while k < list.len()
        invariant
            0 <= k <= list@.len(),
            forall|j: int| 0 <= j < k ==> !crate::ffmpeg::feq(#[trigger] list@[j].0, *f),
        decreases list@.len() - k,
    {
        if &list[k].0 == f {
            return Some(list[k].1);
        }
        k = k + 1;
    }
    None
}

/// Replacing the entry at `idx` with one of the same id and a list that
/// only grew by one fresh format, moved to the end, keeps the cache well
/// formed and every other key unchanged.
proof fn lemma_update_keeps_cache<T: Copy>(
    pre: TranscodeCache<T>,
    post: TranscodeCache<T>,
    idx: int,
)
    requires
        pre.wf(),
        0 <= idx < pre.entries_view().len(),
        post.entries_view().len() == pre.entries_view().len(),
        post.spec_capacity() == pre.spec_capacity(),
        post.entries_view()[post.entries_view().len() - 1].0 == pre.entries_view()[idx].0,
        forall|k: int, l: int|
            0 <= k < l < post.entries_view()[post.entries_view().len() - 1].1@.len()
                ==> !crate::ffmpeg::feq(
                #[trigger] post.entries_view()[post.entries_view().len() - 1].1@[k].0,
                #[trigger] post.entries_view()[post.entries_view().len() - 1].1@[l].0,
            ),
        forall|i: int|
            0 <= i < post.entries_view().len() - 1 ==> post.entries_view()[i]
                == pre.entries_view()[promote_src(pre.entries_view().len() as int, idx, i)],
    ensures
        post.wf(),
        forall|key: Seq<char>| post.has_key(key) == pre.has_key(key),
        forall|key: Seq<char>|
            key != pre.entries_view()[idx].0@ && pre.has_key(key) ==> post.entry_list(key)
                == pre.entry_list(key),
        post.has_key(pre.entries_view()[idx].0@),
        post.entry_list(pre.entries_view()[idx].0@) == post.entries_view()[post.entries_view().len()
            - 1].1@,
{
    let a = pre.entries_view();
    let b = post.entries_view();
    let n = a.len() as int;
    let key0 = a[idx].0@;
    assert forall|i: int, j: int| 0 <= i < j < n implies b[i].0@ != b[j].0@ by {
        assert(b[i].0@ == a[promote_src(n, idx, i)].0@);
        assert(b[j].0@ == a[promote_src(n, idx, j)].0@);
        assert(promote_src(n, idx, i) != promote_src(n, idx, j));
    }
    assert forall|key: Seq<char>| post.has_key(key) == pre.has_key(key) by {
        if pre.has_key(key) {
            let j = pre.key_idx(key);
            let i = promote_dst(n, idx, j);
            assert(b[i].0@ == key);
            assert(post.has_key(key));
        }
        if post.has_key(key) {
            let i = post.key_idx(key);
            assert(b[i].0@ == a[promote_src(n, idx, i)].0@);
            assert(pre.has_key(key));
        }
    }
    assert forall|key: Seq<char>| key != key0 && pre.has_key(key) implies post.entry_list(key)
        == pre.entry_list(key) by {
        let j = pre.key_idx(key);
        let i = post.key_idx(key);
        assert(a[j].0@ == key);
        assert(b[i].0@ == key);
        assert(i != n - 1);
        assert(b[i] == a[promote_src(n, idx, i)]);
        if promote_src(n, idx, i) != j {
            let x = promote_src(n, idx, i);
            if x < j {
                assert(a[x].0@ != a[j].0@);
            } else {
                assert(a[j].0@ != a[x].0@);
            }
        }
    }
    assert(b[n - 1].0@ == key0);
    assert(post.has_key(key0));
    let i0 = post.key_idx(key0);
    if i0 != n - 1 {
        assert(b[i0] == a[promote_src(n, idx, i0)]);
        assert(promote_src(n, idx, i0) != idx);
        let x = promote_src(n, idx, i0);
        if x < idx {
            assert(a[x].0@ != a[idx].0@);
        } else {
            assert(a[idx].0@ != a[x].0@);
        }
    }
}

/// Dropping the least recently used entry keeps the rest unchanged.
proof fn lemma_evict_front<T: Copy>(pre: TranscodeCache<T>, post: TranscodeCache<T>)
    requires
        pre.wf(),
        pre.entries_view().len() > 0,
        post.entries_view() == pre.entries_view().remove(0),
        post.spec_capacity() == pre.spec_capacity(),
    ensures
        post.wf(),
        post.entries_view().len() == pre.entries_view().len() - 1,
        !post.has_key(pre.entries_view()[0].0@),
        forall|key: Seq<char>|
            post.has_key(key) ==> pre.has_key(key) && post.entry_list(key) == pre.entry_list(
                key,
            ),
        forall|key: Seq<char>|
            pre.has_key(key) && key != pre.entries_view()[0].0@ ==> post.has_key(key),
{
    let a = pre.entries_view();
    let b = post.entries_view();
    let n = a.len() as int;
    assert forall|i: int| 0 <= i < n - 1 implies b[i] == a[i + 1] by {}
    assert(!post.has_key(a[0].0@)) by {
        if post.has_key(a[0].0@) {
            let i = post.key_idx(a[0].0@);
            assert(b[i] == a[i + 1]);
            assert(a[0].0@ != a[i + 1].0@);
        }
    }
    assert forall|key: Seq<char>|
        post.has_key(key) implies pre.has_key(key) && post.entry_list(key) == pre.entry_list(
        key,
    ) by {
        let i = post.key_idx(key);
        assert(b[i] == a[i + 1]);
        assert(pre.has_key(key));
        let j = pre.key_idx(key);
        if j != i + 1 {
            if j < i + 1 {
                assert(a[j].0@ != a[i + 1].0@);
            } else {
                assert(a[i + 1].0@ != a[j].0@);
            }
        }
    }
    assert forall|key: Seq<char>|
        pre.has_key(key) && key != pre.entries_view()[0].0@ implies post.has_key(key) by {
        let j = pre.key_idx(key);
        assert(j != 0);
        assert(b[j - 1] == a[j]);
    }
}

/// Appending an entry for a fresh id keeps the rest unchanged.
proof fn lemma_add_new_key<T: Copy>(
    pre: TranscodeCache<T>,
    post: TranscodeCache<T>,
    key0: Seq<char>,
)
    requires
        pre.wf(),
        pre.entries_view().len() < pre.spec_capacity(),
        !pre.has_key(key0),
        post.entries_view().len() == pre.entries_view().len() + 1,
        post.spec_capacity() == pre.spec_capacity(),
        forall|i: int|
            0 <= i < pre.entries_view().len() ==> post.entries_view()[i] == pre.entries_view()[i],
        post.entries_view()[post.entries_view().len() - 1].0@ == key0,
        post.entries_view()[post.entries_view().len() - 1].1@.len() == 1,
    ensures
        post.wf(),
        post.has_key(key0),
        post.entry_list(key0) == post.entries_view()[post.entries_view().len() - 1].1@,
        forall|key: Seq<char>| pre.has_key(key) ==> post.has_key(key),
        forall|key: Seq<char>|
            key != key0 && post.has_key(key) ==> pre.has_key(key) && post.entry_list(key)
                == pre.entry_list(key),
{
    let a = pre.entries_view();
    let b = post.entries_view();
    let n = a.len() as int;
    assert forall|i: int, j: int| 0 <= i < j < b.len() implies b[i].0@ != b[j].0@ by {
        if j == n {
            assert(b[i] == a[i]);
            if b[i].0@ == key0 {
                assert(pre.has_key(key0));
            }
        }
    }
    assert(b[n].0@ == key0);
    assert(post.has_key(key0));
    let i0 = post.key_idx(key0);
    if i0 != n {
        assert(b[i0] == a[i0]);
        assert(pre.has_key(key0));
    }
    assert forall|key: Seq<char>| pre.has_key(key) implies post.has_key(key) by {
        let j = pre.key_idx(key);
        assert(b[j] == a[j]);
    }
    assert forall|key: Seq<char>| key != key0 && post.has_key(key) implies pre.has_key(key)
        && post.entry_list(key) == pre.entry_list(key) by {
        let i = post.key_idx(key);
        assert(i != n);
        assert(b[i] == a[i]);
        assert(pre.has_key(key));
        let j = pre.key_idx(key);
        if j != i {
            if j < i {
                assert(a[j].0@ != a[i].0@);
            } else {
                assert(a[i].0@ != a[j].0@);
            }
        }
    }
}

fn scan_compatible<T: Copy>(
    list: &Vec<(crate::ffmpeg::Format, T)>,
    device: &crate::ffmpeg::Device,
) -> (r: Option<T>)
    ensures
        match r {
            Some(t) => exists|k: int|
                0 <= k < list@.len() && crate::ffmpeg::spec_compatible(list@[k].0, *device)
                    && list@[k].1 == t,
            None => forall|k: int|
                0 <= k < list@.len() ==> !crate::ffmpeg::spec_compatible(list@[k].0, *device),
        },
{
    let mut k: usize = 0;
    while k < list.len()
        invariant
            0 <= k <= list@.len(),
            forall|j: int|
                0 <= j < k ==> !crate::ffmpeg::spec_compatible(list@[j].0, *device),
        decreases list@.len() - k,
    {
        if list[k].0.compatible_with(device) {
            return Some(list[k].1);
        }
        k = k + 1;
    }
    None
}

/// In a well-formed cache the index of a present key is the one the spec
/// picks.
proof fn lemma_unique_key_idx<T: Copy>(c: TranscodeCache<T>, key: Seq<char>, idx: int)
    requires
        c.wf(),
        0 <= idx < c.entries_view().len(),
        c.entries_view()[idx].0@ == key,
    ensures
        c.has_key(key),
        c.key_idx(key) == idx,
        c.entry_list(key) == c.entries_view()[idx].1@,
{
    assert(c.has_key(key));
    let j = c.key_idx(key);
    if j != idx {
        if j < idx {
            assert(c.entries_view()[j].0@ != c.entries_view()[idx].0@);
        } else {
            assert(c.entries_view()[idx].0@ != c.entries_view()[j].0@);
        }
    }
}

/// Moving the entry at `idx` to the end keeps the cache well formed and
/// every key with its list.
proof fn lemma_promote_keeps_cache<T: Copy>(
    pre: TranscodeCache<T>,
    post: TranscodeCache<T>,
    idx: int,
)
    requires
        pre.wf(),
        0 <= idx < pre.entries_view().len(),
        post.entries_view() == pre.entries_view().remove(idx).push(pre.entries_view()[idx]),
        post.spec_capacity() == pre.spec_capacity(),
    ensures
        post.wf(),
        forall|key: Seq<char>| post.has_key(key) == pre.has_key(key),
        forall|key: Seq<char>| pre.has_key(key) ==> post.entry_list(key) == pre.entry_list(key),
{
    let a = pre.entries_view();
    let b = post.entries_view();
    let n = a.len() as int;
    assert(b.len() == n);
    assert forall|i: int| 0 <= i < n implies b[i] == a[promote_src(n, idx, i)] by {
        if i < idx {
            assert(b[i] == a[i]);
        } else if i == n - 1 {
            assert(b[i] == a[idx]);
        } else {
            assert(b[i] == a[i + 1]);
        }
    }
    assert forall|i: int, j: int| 0 <= i < j < n implies b[i].0@ != b[j].0@ by {
        assert(b[i] == a[promote_src(n, idx, i)]);
        assert(b[j] == a[promote_src(n, idx, j)]);
        assert(promote_src(n, idx, i) != promote_src(n, idx, j));
    }
    assert forall|key: Seq<char>| post.has_key(key) == pre.has_key(key) by {
        if pre.has_key(key) {
            let j = pre.key_idx(key);
            let i = promote_dst(n, idx, j);
            assert(b[i] == a[j]);
            assert(post.has_key(key));
        }
        if post.has_key(key) {
            let i = post.key_idx(key);
            assert(b[i] == a[promote_src(n, idx, i)]);
            assert(pre.has_key(key));
        }
    }
    assert forall|key: Seq<char>| pre.has_key(key) implies post.entry_list(key)
        == pre.entry_list(key) by {
        let j = pre.key_idx(key);
        let i = post.key_idx(key);
        assert(a[j].0@ == key);
        assert(b[i] == a[promote_src(n, idx, i)]);
        assert(a[promote_src(n, idx, i)].0@ == key);
        if promote_src(n, idx, i) != j {
            let x = promote_src(n, idx, i);
            if x < j {
                assert(a[x].0@ != a[j].0@);
            } else {
                assert(a[j].0@ != a[x].0@);
            }
        }
        assert(b[i].1@ == a[j].1@);
    }
}

/// Where position `i` of the promoted list came from.
pub open spec fn promote_src(n: int, idx: int, i: int) -> int {
    if i == n - 1 {
        idx
    } else if i < idx {
        i
    } else {
        i + 1
    }
}

/// Where position `j` of the original list went.
pub open spec fn promote_dst(n: int, idx: int, j: int) -> int {
    if j == idx {
        n - 1
    } else if j < idx {
        j
    } else {
        j - 1
    }
}

} // verus!
