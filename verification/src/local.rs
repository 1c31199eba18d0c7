//! Content served from a local directory tree: id and path bookkeeping,
//! classification by extension, and safe child resolution.

use vstd::prelude::*;

verus! {

/// A named local root: its title is the first segment of every id below
/// it, and its path is the directory the ids resolve into.
#[derive(Debug)]
pub struct Root {
    pub title: String,
    pub path: String,
}

impl Clone for Root {
    fn clone(&self) -> (r: Self)
        ensures
            r == *self,
    {
        Root { title: self.title.clone(), path: self.path.clone() }
    }
}

/// One node of a local tree: the root it belongs to, its filesystem path,
/// its id, and whether it is a directory (told by the caller, which has
/// seen the filesystem).
#[derive(Debug)]
pub struct Object {
    pub root: Root,
    pub path: String,
    pub id: String,
    pub dir: bool,
}

impl Clone for Object {
    fn clone(&self) -> (r: Self)
        ensures
            r == *self,
    {
        Object {
            root: self.root.clone(),
            path: self.path.clone(),
            id: self.id.clone(),
            dir: self.dir,
        }
    }
}

/// Strips a known prefix from a path, leaving the relative remainder.
pub fn path_remove_prefix(full: &str, prefix: &str) -> (r: String)
    requires
        prefix@.len() <= full@.len(),
    ensures
        r@ == full@.skip(prefix@.len() as int),
{
    let n = prefix.unicode_len();
    let m = full.unicode_len();
    let rest = full.substring_char(n, m);
    proof {
        assert(full@.subrange(n as int, m as int) =~= full@.skip(n as int));
    }
    String::from_str(rest)
}

/// Start of the piece after the last `.` of a name; zero when there is no
/// dot.
pub open spec fn dot_start(s: Seq<char>) -> int
    decreases s.len(),
{
    if s.len() == 0 {
        0
    } else if s[s.len() - 1] == '.' {
        s.len() as int
    } else {
        dot_start(s.take(s.len() - 1))
    }
}

pub(crate) proof fn lemma_dot_start_bounds(s: Seq<char>)
    ensures
        0 <= dot_start(s) <= s.len(),
        dot_start(s) > 0 ==> s[dot_start(s) - 1] == '.',
        forall|j: int| dot_start(s) <= j < s.len() ==> s[j] != '.',
    decreases s.len(),
{
    if s.len() > 0 && s[s.len() - 1] != '.' {
        lemma_dot_start_bounds(s.take(s.len() - 1));
        assert(forall|j: int| 0 <= j < s.len() - 1 ==> s.take(s.len() - 1)[j] == s[j]);
    }
}

pub(crate) fn dot_start_exec(v: &Vec<char>) -> (p: usize)
    ensures
        p as int == dot_start(v@),
        p <= v@.len(),
{
    let mut j: usize = v.len();
    while j > 0 && v[j - 1] != '.'
        invariant
            0 <= j <= v@.len(),
            forall|k: int| j <= k < v@.len() ==> v@[k] != '.',
        decreases j,
    {
        j = j - 1;
    }
    proof {
        lemma_dot_start_bounds(v@);
        let r = dot_start(v@);
        let e = j as int;
        if e < r {
            assert(v@[r - 1] == '.');
            assert(false);
        }
        if r < e {
            assert(v@[e - 1] != '.');
            assert(false);
        }
    }
    j
}

/// The extension of a name: what follows the last dot, unless the name has
/// no dot or only a leading one (a hidden file).
pub open spec fn spec_extension(name: Seq<char>) -> Option<Seq<char>> {
    let d = dot_start(name);
    if d <= 1 {
        None
    } else {
        Some(name.skip(d))
    }
}

/// The classification of a node: directories apart, the extension of the
/// last path segment decides.
pub open spec fn spec_file_type(dir: bool, path: Seq<char>) -> crate::Type {
    if dir {
        crate::Type::Directory
    } else {
        match spec_extension(crate::last_seg(path)) {
            None => crate::Type::Other,
            Some(e) => {
                if e == "avi"@ || e == "m4v"@ || e == "mkv"@ || e == "mp4"@ {
                    crate::Type::Video
                } else if e == "jpeg"@ || e == "jpg"@ || e == "png"@ {
                    crate::Type::Image
                } else if e == "srt"@ {
                    crate::Type::Subtitles
                } else {
                    crate::Type::Other
                }
            },
        }
    }
}

impl Object {
    /// A node below a root: its id is the root's title followed by the
    /// path relative to the root.
    pub fn new(root: Root, path: String, dir: bool) -> (r: Result<Object, crate::error::Error>)
        requires
            root.path@.len() <= path@.len(),
        ensures
            r matches Ok(o) && o.root == root && o.path == path && o.dir == dir && o.id@
                == root.title@ + path@.skip(root.path@.len() as int) && obj_wf(o),
    {
        let rel = path_remove_prefix(path.as_str(), root.path.as_str());
        let id = root.title.clone().concat(rel.as_str());
        Ok(Object { root, path, id, dir })
    }

    /// As [`Object::new`], boxed.
    pub fn new_boxed(root: Root, path: String, dir: bool) -> (r: Result<
        Box<Object>,
        crate::error::Error,
    >)
        requires
            root.path@.len() <= path@.len(),
        ensures
            r matches Ok(o) && o.root == root && o.path == path && o.dir == dir && o.id@
                == root.title@ + path@.skip(root.path@.len() as int) && obj_wf(*o),
    {
        match Self::new(root, path, dir) {
            Ok(o) => Ok(Box::new(o)),
            Err(e) => Err(e),
        }
    }

    /// The object a `--local name=path` mapping serves: a directory whose
    /// id is the bare name.
    pub fn new_root(name: String, path: String) -> (r: Object)
        ensures
            r.root.title@ == name@,
            r.root.path@ == path@,
            r.path@ == path@,
            r.id@ == name@,
            r.dir,
    {
        let root = Root { title: name.clone(), path: path.clone() };
        Object { root, path, id: name, dir: true }
    }

    /// The node's id.
    pub fn id(&self) -> (r: &str)
        ensures
            r@ == self.id@,
    {
        self.id.as_str()
    }

    /// The id of the node's parent; a top-level id falls back to the
    /// virtual root.
    pub fn parent_id(&self) -> (r: String)
        ensures
            r@ == if crate::seg_start(self.id@) > 0 {
                self.id@.take(crate::seg_start(self.id@) - 1)
            } else {
                "0"@
            },
    {
        let chars = crate::chars_of(self.id.as_str());
        let p = crate::seg_start_exec(&chars);
        if p > 0 {
            let n = self.id.as_str().unicode_len();
            let head = self.id.as_str().substring_char(0, p - 1);
            proof {
                assert(self.id@.subrange(0, p - 1) =~= self.id@.take(p - 1));
            }
            String::from_str(head)
        } else {
            String::from_str("0")
        }
    }

    /// The node's title: at the root itself the registered name, below it
    /// the last segment of the path, or a placeholder when that is empty.
    pub fn title(&self) -> (r: String)
        ensures
            r@ == spec_title(*self),
    {
        if crate::ffmpeg::str_eq(self.path.as_str(), self.root.path.as_str()) {
            return self.root.title.clone();
        }
        let chars = crate::chars_of(self.path.as_str());
        let p = crate::seg_start_exec(&chars);
        let n = self.path.as_str().unicode_len();
        if p < n {
            let tail = self.path.as_str().substring_char(p, n);
            proof {
                assert(self.path@.subrange(p as int, n as int) =~= crate::last_seg(self.path@));
            }
            String::from_str(tail)
        } else {
            proof {
                assert(self.path@.subrange(p as int, n as int) =~= crate::last_seg(self.path@));
            }
            String::from_str("<No Title>")
        }
    }

    /// Whether the node is a directory.
    pub fn is_dir(&self) -> (r: bool)
        ensures
            r == self.dir,
    {
        self.dir
    }

    /// The node's classification, from its extension.
    pub fn file_type(&self) -> (r: crate::Type)
        ensures
            r == spec_file_type(self.dir, self.path@),
    {
        if self.dir {
            return crate::Type::Directory;
        }
        let chars = crate::chars_of(self.path.as_str());
        let p = crate::seg_start_exec(&chars);
        let n = self.path.as_str().unicode_len();
        let seg = self.path.as_str().substring_char(p, n);
        proof {
            assert(self.path@.subrange(p as int, n as int) =~= crate::last_seg(self.path@));
        }
        let seg_chars = crate::chars_of(seg);
        let d = dot_start_exec(&seg_chars);
        if d <= 1 {
            return crate::Type::Other;
        }
        let m = seg.unicode_len();
        let ext = seg.substring_char(d, m);
        proof {
            assert(seg@.subrange(d as int, m as int) =~= seg@.skip(d as int));
        }
        if crate::ffmpeg::str_eq(ext, "avi") || crate::ffmpeg::str_eq(ext, "m4v")
            || crate::ffmpeg::str_eq(ext, "mkv") || crate::ffmpeg::str_eq(ext, "mp4") {
            crate::Type::Video
        } else if crate::ffmpeg::str_eq(ext, "jpeg") || crate::ffmpeg::str_eq(ext, "jpg")
            || crate::ffmpeg::str_eq(ext, "png") {
            crate::Type::Image
        } else if crate::ffmpeg::str_eq(ext, "srt") {
            crate::Type::Subtitles
        } else {
            crate::Type::Other
        }
    }

    /// The DLNA class string a browse response reports for this node.
    pub fn dlna_class(&self) -> (r: &'static str)
        ensures
            r@ == spec_dlna_class(spec_file_type(self.dir, self.path@)),
    {
        match self.file_type() {
            crate::Type::Directory => "object.container.storageFolder",
            crate::Type::Image => "object.item.imageItem.photo",
            crate::Type::Subtitles => "object.item",
            crate::Type::Video => "object.item.videoItem",
            crate::Type::Other => "object.item",
        }
    }

    /// The id without its extension, kept whole when the dot lies in an
    /// earlier path segment.
    pub fn prefix(&self) -> (r: String)
        ensures
            r@ == spec_prefix(self.id@),
    {
        let chars = crate::chars_of(self.id.as_str());
        let d = dot_start_exec(&chars);
        let p = crate::seg_start_exec(&chars);
        if d >= 1 && d - 1 >= p {
            let head = self.id.as_str().substring_char(0, d - 1);
            proof {
                assert(self.id@.subrange(0, d - 1) =~= self.id@.take(d - 1));
            }
            String::from_str(head)
        } else {
            self.id.clone()
        }
    }
}

/// The id with the extension of its last segment removed; an id whose last
/// dot lies before the last path separator is kept whole.
pub open spec fn spec_prefix(id: Seq<char>) -> Seq<char> {
    let d = dot_start(id);
    if d >= 1 && d - 1 >= crate::seg_start(id) {
        id.take(d - 1)
    } else {
        id
    }
}

/// Length of the leading path segment: the characters before the first
/// separator.
pub open spec fn seg_len(s: Seq<char>) -> int
    decreases s.len(),
{
    if s.len() == 0 || s[0] == '/' {
        0
    } else {
        1 + seg_len(s.drop_first())
    }
}

pub(crate) proof fn lemma_seg_len_bounds(s: Seq<char>)
    ensures
        0 <= seg_len(s) <= s.len(),
        forall|j: int| 0 <= j < seg_len(s) ==> s[j] != '/',
        seg_len(s) < s.len() ==> s[seg_len(s)] == '/',
    decreases s.len(),
{
    if s.len() > 0 && s[0] != '/' {
        lemma_seg_len_bounds(s.drop_first());
        assert forall|j: int| 0 <= j < seg_len(s) implies s[j] != '/' by {
            if j > 0 {
                assert(s.drop_first()[j - 1] == s[j]);
            }
        }
        if seg_len(s) < s.len() {
            assert(s.drop_first()[seg_len(s.drop_first())] == s[seg_len(s)]);
        }
    }
}

pub(crate) fn seg_len_at(v: &Vec<char>, start: usize) -> (n: usize)
    requires
        start <= v@.len(),
    ensures
        n as int == seg_len(v@.skip(start as int)),
        start + n <= v@.len(),
{
    let ghost s = v@.skip(start as int);
    let mut j: usize = start;
    while j < v.len() && v[j] != '/'
        invariant
            start <= j <= v@.len(),
            s == v@.skip(start as int),
            forall|k: int| 0 <= k < j - start ==> s[k] != '/',
        decreases v@.len() - j,
    {
        j = j + 1;
    }
    proof {
        lemma_seg_len_bounds(s);
        let e = j - start;
        let r = seg_len(s);
        if e < r {
            assert(s[e] != '/');
            assert(false);
        }
        if r < e {
            assert(s[r] != '/');
            assert(false);
        }
    }
    j - start
}

/// The path below a root that an id's remainder resolves to: each segment
/// is kept under a fresh separator, but empty segments and `..` are
/// dropped, so the resolved path never escapes the root.
pub open spec fn spec_safe_suffix(s: Seq<char>) -> Seq<char>
    decreases s.len(),
    via spec_safe_suffix_decreases
{
    if s.len() == 0 {
        Seq::empty()
    } else {
        let n = seg_len(s);
        let seg = s.take(n);
        let rest = if n < s.len() {
            s.skip(n + 1)
        } else {
            s.skip(n)
        };
        (if n == 0 || seg == ".."@ {
            Seq::<char>::empty()
        } else {
            seq!['/'] + seg
        }) + spec_safe_suffix(rest)
    }
}

#[via_fn]
proof fn spec_safe_suffix_decreases(s: Seq<char>) {
    if s.len() > 0 {
        lemma_seg_len_bounds(s);
    }
}

fn append_chars(out: &mut String, v: &Vec<char>, i: usize, j: usize)
    requires
        i <= j <= v@.len(),
    ensures
        final(out)@ == old(out)@ + v@.subrange(i as int, j as int),
{
    let ghost orig = out@;
    let mut k: usize = i;
    proof {
        assert(orig + v@.subrange(i as int, i as int) =~= orig);
    }
    while k < j
        invariant
            i <= k <= j <= v@.len(),
            out@ == orig + v@.subrange(i as int, k as int),
        decreases j - k,
    {
        out.push(v[k]);
        proof {
            assert(orig + v@.subrange(i as int, k + 1) =~= (orig + v@.subrange(
                i as int,
                k as int,
            )).push(v@[k as int]));
        }
        k = k + 1;
    }
}

proof fn lemma_safe_suffix_step(s: Seq<char>, i: int)
    requires
        0 <= i < s.len(),
    ensures
        spec_safe_suffix(s.skip(i)) == {
            let n = seg_len(s.skip(i));
            let seg = s.subrange(i, i + n);
            let next = if i + n < s.len() {
                i + n + 1
            } else {
                i + n
            };
            (if n == 0 || seg == ".."@ {
                Seq::<char>::empty()
            } else {
                seq!['/'] + seg
            }) + spec_safe_suffix(s.skip(next))
        },
{
    let t = s.skip(i);
    let n = seg_len(t);
    lemma_seg_len_bounds(t);
    assert(t.take(n) =~= s.subrange(i, i + n));
    if n < t.len() {
        assert(t.skip(n + 1) =~= s.skip(i + n + 1));
    } else {
        assert(t.skip(n) =~= s.skip(i + n));
    }
}

/// A relative path that cannot climb: empty, or a separator, a real
/// segment that is not `..`, and again such a path.
pub open spec fn is_safe_path(r: Seq<char>) -> bool
    decreases r.len(),
    via is_safe_path_decreases
{
    if r.len() == 0 {
        true
    } else {
        let n = seg_len(r.skip(1));
        &&& r[0] == '/'
        &&& n > 0
        &&& r.skip(1).take(n) != ".."@
        &&& is_safe_path(r.skip(1 + n))
    }
}

#[via_fn]
proof fn is_safe_path_decreases(r: Seq<char>) {
    if r.len() > 0 {
        lemma_seg_len_bounds(r.skip(1));
    }
}

/// The resolved suffix of any id remainder is a safe path: every segment
/// is real and none is `..`, so the path a lookup resolves to never
/// escapes its root.
pub proof fn lemma_safe_suffix_never_escapes(s: Seq<char>)
    ensures
        is_safe_path(spec_safe_suffix(s)),
    decreases s.len(),
{
    if s.len() > 0 {
        let n = seg_len(s);
        lemma_seg_len_bounds(s);
        let seg = s.take(n);
        let rest = if n < s.len() {
            s.skip(n + 1)
        } else {
            s.skip(n)
        };
        lemma_safe_suffix_never_escapes(rest);
        if n == 0 || seg == ".."@ {
            assert(Seq::<char>::empty() + spec_safe_suffix(rest) =~= spec_safe_suffix(rest));
        } else {
            let tail = spec_safe_suffix(rest);
            let r = (seq!['/'] + seg) + tail;
            assert(r[0] == '/');
            assert(r.skip(1) =~= seg + tail);
            let m = seg_len(r.skip(1));
            lemma_seg_len_bounds(r.skip(1));
            assert forall|j: int| 0 <= j < seg.len() implies r.skip(1)[j] != '/' by {
                assert(r.skip(1)[j] == seg[j]);
            }
            if tail.len() > 0 {
                assert(r.skip(1)[seg.len() as int] == tail[0]);
                assert(tail[0] == '/');
            }
            if m < seg.len() {
                assert(r.skip(1)[m] == '/');
                assert(false);
            }
            if m > seg.len() {
                assert(seg.len() < r.skip(1).len());
                assert(r.skip(1)[seg.len() as int] != '/');
                assert(tail.len() > 0);
                assert(false);
            }
            assert(m == seg.len());
            assert(r.skip(1).take(m) =~= seg);
            assert(r.skip(1 + m) =~= tail);
        }
    }
}

/// Resolves an id remainder into a safe relative path: `..` and empty
/// segments vanish.
pub fn safe_suffix(id: &str) -> (r: String)
    ensures
        r@ == spec_safe_suffix(id@),
{
    let v = crate::chars_of(id);
    let mut out = String::new();
    let mut i: usize = 0;
    proof {
        assert(v@.skip(0) =~= v@);
        assert(Seq::<char>::empty() + spec_safe_suffix(v@) =~= spec_safe_suffix(v@));
    }
    while i < v.len()
        invariant
            0 <= i <= v@.len(),
            v@ == id@,
            spec_safe_suffix(id@) == out@ + spec_safe_suffix(v@.skip(i as int)),
        decreases v@.len() - i,
    {
        proof {
            lemma_safe_suffix_step(v@, i as int);
        }
        let n = seg_len_at(&v, i);
        let ghost seg = v@.subrange(i as int, i + n);
        let ghost out0 = out@;
        let dotdot = n == 2 && v[i] == '.' && v[i + 1] == '.';
        proof {
            reveal_strlit("..");
            assert(".."@.len() == 2);
            if dotdot {
                assert(seg =~= ".."@);
            } else if n == 2 {
                assert(seg[0] == v@[i as int] && seg[1] == v@[i + 1]);
                assert(seg != ".."@);
            }
        }
        let next = if i + n < v.len() {
            i + n + 1
        } else {
            i + n
        };
        let ghost piece = if n == 0 || seg == ".."@ {
            Seq::<char>::empty()
        } else {
            seq!['/'] + seg
        };
        if n > 0 && !dotdot {
            out.push('/');
            append_chars(&mut out, &v, i, i + n);
            proof {
                assert(out@ =~= out0 + piece);
            }
        } else {
            proof {
                assert(out@ =~= out0 + piece);
            }
        }
        proof {
            assert(out0 + (piece + spec_safe_suffix(v@.skip(next as int))) =~= (out0 + piece)
                + spec_safe_suffix(v@.skip(next as int)));
        }
        i = next;
    }
    proof {
        assert(v@.skip(i as int) =~= Seq::<char>::empty());
        assert(out@ + Seq::<char>::empty() =~= out@);
    }
    out
}

/// The class string of each node kind.
pub open spec fn spec_dlna_class(t: crate::Type) -> Seq<char> {
    match t {
        crate::Type::Directory => "object.container.storageFolder"@,
        crate::Type::Image => "object.item.imageItem.photo"@,
        crate::Type::Subtitles => "object.item"@,
        crate::Type::Video => "object.item.videoItem"@,
        crate::Type::Other => "object.item"@,
    }
}

/// The title a listing shows for a node: the registered name at the root
/// itself, otherwise the last segment of its path, or a placeholder when
/// that is empty.
pub open spec fn spec_title(o: Object) -> Seq<char> {
    if o.path@ == o.root.path@ {
        o.root.title@
    } else if crate::last_seg(o.path@).len() > 0 {
        crate::last_seg(o.path@)
    } else {
        "<No Title>"@
    }
}

/// A node's id is its root's title followed by its path relative to the
/// root: what the constructors build and every method preserves.
pub open spec fn obj_wf(o: Object) -> bool {
    &&& o.root.path@.len() <= o.path@.len()
    &&& o.id@ == o.root.title@ + o.path@.skip(o.root.path@.len() as int)
}

impl Object {
    /// Resolves an id remainder against this root object: the `..` and
    /// empty segments of the remainder are dropped, so the result stays
    /// below the root. `dir` tells whether the resolved path is a
    /// directory.
    pub fn lookup(&self, id: &str, dir: bool) -> (r: Result<Box<Object>, crate::error::Error>)
        requires
            self.path@ == self.root.path@,
        ensures
            r matches Ok(o) && o.root == self.root && o.dir == dir && o.path@ == self.root.path@
                + spec_safe_suffix(id@) && o.id@ == self.root.title@ + spec_safe_suffix(id@)
                && obj_wf(*o),
    {
        let suffix = safe_suffix(id);
        let path = self.path.clone().concat(suffix.as_str());
        let r = Self::new_boxed(self.root.clone(), path, dir);
        proof {
            assert((self.root.path@ + spec_safe_suffix(id@)).skip(self.root.path@.len() as int)
                =~= spec_safe_suffix(id@));
        }
        r
    }

    /// The children of this directory, one per entry the surrounding
    /// process read from the filesystem, in the entries' order. Each entry
    /// is a (name, is-directory) pair.
    pub fn children_from_entries(&self, entries: &Vec<(String, bool)>) -> (r: Vec<Object>)
        requires
            obj_wf(*self),
        ensures
            r@.len() == entries@.len(),
            forall|i: int|
                0 <= i < entries@.len() ==> {
                    &&& (#[trigger] r@[i]).root == self.root
                    &&& r@[i].dir == entries@[i].1
                    &&& r@[i].path@ == self.path@ + seq!['/'] + entries@[i].0@
                    &&& r@[i].id@ == self.id@ + seq!['/'] + entries@[i].0@
                    &&& obj_wf(r@[i])
                },
    {
        let mut r: Vec<Object> = Vec::new();
        let mut i: usize = 0;
        while i < entries.len()
            invariant
                obj_wf(*self),
                0 <= i <= entries@.len(),
                r@.len() == i,
                forall|j: int|
                    0 <= j < i ==> {
                        &&& (#[trigger] r@[j]).root == self.root
                        &&& r@[j].dir == entries@[j].1
                        &&& r@[j].path@ == self.path@ + seq!['/'] + entries@[j].0@
                        &&& r@[j].id@ == self.id@ + seq!['/'] + entries@[j].0@
                        &&& obj_wf(r@[j])
                    },
            decreases entries@.len() - i,
        {
            let path = self.path.clone().concat("/").concat(entries[i].0.as_str());
            proof {
                reveal_strlit("/");
                assert("/"@ =~= seq!['/']);
            }
            match Self::new(self.root.clone(), path, entries[i].1) {
                Ok(o) => {
                    proof {
                        assert((self.path@ + "/"@ + entries@[i as int].0@).skip(
                            self.root.path@.len() as int,
                        ) =~= self.path@.skip(self.root.path@.len() as int) + seq!['/']
                            + entries@[i as int].0@);
                        assert(self.root.title@ + (self.path@.skip(self.root.path@.len() as int)
                            + seq!['/'] + entries@[i as int].0@) =~= self.id@ + seq!['/']
                            + entries@[i as int].0@);
                        assert(self.path@ + "/"@ + entries@[i as int].0@ =~= self.path@
                            + seq!['/'] + entries@[i as int].0@);
                    }
                    r.push(o);
                },
                Err(_) => {
                    proof {
                        assert(false);
                    }
                },
            }
            i = i + 1;
        }
        r
    }
}

impl Object {
    /// The children a listing shows, from the raw directory entries: the
    /// unclassified are dropped and the rest stand in human order.
    pub fn relevant_children(&self, entries: &Vec<(String, bool)>) -> (r: Vec<Object>)
        requires
            obj_wf(*self),
        ensures
            exists|mid: Seq<Object>|
                {
                    &&& mid.len() == entries@.len()
                    &&& (forall|i: int|
                        0 <= i < entries@.len() ==> {
                            &&& (#[trigger] mid[i]).root == self.root
                            &&& mid[i].dir == entries@[i].1
                            &&& mid[i].path@ == self.path@ + seq!['/'] + entries@[i].0@
                            &&& mid[i].id@ == self.id@ + seq!['/'] + entries@[i].0@
                        })
                    &&& r@ == spec_sort_objs(spec_relevant(mid))
                },
    {
        let all = self.children_from_entries(entries);
        let ghost mid = all@;
        let kept = filter_relevant(all);
        let r = sort_objects(kept);
        proof {
            assert(r@ == spec_sort_objs(spec_relevant(mid)));
        }
        r
    }
}

/// Keeps the nodes a listing shows: everything but the unclassified.
pub open spec fn spec_relevant(s: Seq<Object>) -> Seq<Object> {
    s.filter(|o: Object| spec_file_type(o.dir, o.path@) != crate::Type::Other)
}

/// Drops the nodes a listing hides.
pub fn filter_relevant(v: Vec<Object>) -> (r: Vec<Object>)
    ensures
        r@ == spec_relevant(v@),
{
    let mut r: Vec<Object> = Vec::new();
    let mut i: usize = 0;
    proof {
        assert(v@.take(0) =~= Seq::<Object>::empty());
        assert(spec_relevant(v@.take(0)) =~= Seq::<Object>::empty());
    }
    let n = v.len();
    let mut src = v;
    while i < n
        invariant
            0 <= i <= n,
            n == src@.len(),
            r@ == spec_relevant(src@.take(i as int)),
        decreases n - i,
    {
        let keep = {
            let t = src[i].file_type();
            !matches!(t, crate::Type::Other)
        };
        proof {
            assert(src@.take(i + 1).drop_last() =~= src@.take(i as int));
            assert(src@.take(i + 1).last() == src@[i as int]);
            reveal(Seq::filter);
            assert(src@.take(i + 1).filter(
                |o: Object| spec_file_type(o.dir, o.path@) != crate::Type::Other,
            ) == if spec_file_type(src@[i as int].dir, src@[i as int].path@) != crate::Type::Other {
                spec_relevant(src@.take(i as int)).push(src@[i as int])
            } else {
                spec_relevant(src@.take(i as int))
            });
        }
        if keep {
            let o = src[i].clone();
            r.push(o);
        }
        i = i + 1;
    }
    proof {
        assert(src@.take(n as int) =~= src@);
    }
    r
}

/// Where a node goes in an ordered list: before the first member it
/// strictly precedes, after every other.
pub open spec fn spec_insert_obj(x: Object, s: Seq<Object>) -> Seq<Object>
    decreases s.len(),
{
    if s.len() == 0 {
        seq![x]
    } else if crate::spec_human_order(x.id@, s[0].id@) == core::cmp::Ordering::Less {
        seq![x] + s
    } else {
        seq![s[0]] + spec_insert_obj(x, s.drop_first())
    }
}

/// A listing in human order: every node inserted in turn, later duplicates
/// after earlier ones.
pub open spec fn spec_sort_objs(s: Seq<Object>) -> Seq<Object>
    decreases s.len(),
{
    if s.len() == 0 {
        Seq::empty()
    } else {
        spec_insert_obj(s[0], spec_sort_objs(s.drop_first()))
    }
}

proof fn lemma_insert_obj_at(x: Object, s: Seq<Object>, p: int)
    requires
        0 <= p <= s.len(),
        forall|j: int|
            0 <= j < p ==> crate::spec_human_order(x.id@, (#[trigger] s[j]).id@)
                != core::cmp::Ordering::Less,
        p < s.len() ==> crate::spec_human_order(x.id@, s[p].id@) == core::cmp::Ordering::Less,
    ensures
        spec_insert_obj(x, s) == s.insert(p, x),
    decreases s.len(),
{
    if s.len() == 0 {
        assert(spec_insert_obj(x, s) =~= s.insert(0, x));
    } else if p == 0 {
        assert(seq![x] + s =~= s.insert(0, x));
    } else {
        assert forall|j: int|
            0 <= j < p - 1 implies crate::spec_human_order(
            x.id@,
            (#[trigger] s.drop_first()[j]).id@,
        ) != core::cmp::Ordering::Less by {
            assert(s.drop_first()[j] == s[j + 1]);
        }
        if p - 1 < s.drop_first().len() {
            assert(s.drop_first()[p - 1] == s[p]);
        }
        lemma_insert_obj_at(x, s.drop_first(), p - 1);
        assert(seq![s[0]] + s.drop_first().insert(p - 1, x) =~= s.insert(p, x));
    }
}

fn insert_object(x: Object, s: Vec<Object>) -> (r: Vec<Object>)
    ensures
        r@ == spec_insert_obj(x, s@),
{
    let mut p: usize = 0;
    while p < s.len() && !matches!(
        crate::human_order(x.id.as_str(), s[p].id.as_str()),
        core::cmp::Ordering::Less
    )
        invariant
            0 <= p <= s@.len(),
            forall|j: int|
                0 <= j < p ==> crate::spec_human_order(x.id@, (#[trigger] s@[j]).id@)
                    != core::cmp::Ordering::Less,
        decreases s@.len() - p,
    {
        p = p + 1;
    }
    proof {
        lemma_insert_obj_at(x, s@, p as int);
    }
    let mut s = s;
    s.insert(p, x);
    s
}

/// Sorts a listing into human order. Of two members with equal sort keys
/// the later input comes first: each member is placed after the equally
/// keyed ones already placed, and placement runs from the last input to
/// the first.
pub fn sort_objects(v: Vec<Object>) -> (r: Vec<Object>)
    ensures
        r@ == spec_sort_objs(v@),
{
    let mut src = v;
    let mut out: Vec<Object> = Vec::new();
    let ghost full = src@;
    let mut i: usize = src.len();
    proof {
        assert(full.skip(i as int) =~= Seq::<Object>::empty());
        assert(full.take(i as int) =~= full);
    }
    while i > 0
        invariant
            0 <= i <= full.len(),
            src@ == full.take(i as int),
            out@ == spec_sort_objs(full.skip(i as int)),
        decreases i,
    {
        let x = src.remove(i - 1);
        proof {
            assert(full.take(i as int).remove(i - 1) =~= full.take(i - 1));
            assert(full.take(i as int).drop_last() =~= full.take(i - 1));
            assert(full.take(i as int).last() == full[i - 1]);
            assert(full.skip(i - 1)[0] == full[i - 1]);
            assert(full.skip(i - 1).drop_first() =~= full.skip(i as int));
        }
        out = insert_object(x, out);
        i = i - 1;
    }
    proof {
        assert(full.skip(0) =~= full);
    }
    out
}

} // verus!
