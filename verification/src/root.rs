//! The virtual root: the named local roots, and id resolution across them.

use vstd::pervasive::VecAdditionalExecFns;
use vstd::prelude::*;

verus! {

/// What an id resolves to: the virtual root itself, or a node of one of
/// the local trees.
#[derive(Debug)]
pub enum Node {
    VirtualRoot,
    Item(Box<crate::local::Object>),
}

/// The set of served roots. Their insertion order is the order the virtual
/// root lists them in.
#[derive(Debug)]
pub struct Root {
    items: Vec<crate::local::Object>,
}

impl Root {
    /// The served root objects, in insertion order.
    pub closed spec fn items_view(self) -> Seq<crate::local::Object> {
        self.items@
    }

    /// Every root stands at its own path with its title as id, is a
    /// directory, and no two roots share a name.
    pub open spec fn wf(self) -> bool {
        &&& forall|i: int|
            0 <= i < self.items_view().len() ==> {
                &&& (#[trigger] self.items_view()[i]).path@
                    == self.items_view()[i].root.path@
                &&& self.items_view()[i].id@ == self.items_view()[i].root.title@
                &&& self.items_view()[i].id@ != "0"@
                &&& self.items_view()[i].id@ != "-1"@
                &&& self.items_view()[i].dir
            }
        &&& forall|i: int, j: int|
            0 <= i < j < self.items_view().len() ==> (#[trigger] self.items_view()[i]).id@ != (
            #[trigger] self.items_view()[j]).id@
    }

    /// Whether a root of that name is registered.
    pub open spec fn has_root(self, id: Seq<char>) -> bool {
        exists|i: int| 0 <= i < self.items_view().len() && (#[trigger] self.items_view()[i]).id@ == id
    }

    pub open spec fn root_idx(self, id: Seq<char>) -> int {
        choose|i: int|
            0 <= i < self.items_view().len() && (#[trigger] self.items_view()[i]).id@ == id
    }

    /// An empty set of roots.
    pub fn new() -> (r: Root)
        ensures
            r.wf(),
            r.items_view().len() == 0,
    {
        Root { items: Vec::new() }
    }

    /// Whether no root has been added.
    pub fn is_empty(&self) -> (r: bool)
        ensures
            r == (self.items_view().len() == 0),
    {
        self.items.len() == 0
    }

    fn find_root_index(&self, id: &str) -> (r: Option<usize>)
        ensures
            match r {
                Some(i) => i < self.items_view().len() && self.items_view()[i as int].id@ == id@,
                None => !self.has_root(id@),
            },
    {
        let mut i: usize = 0;
        while i < self.items.len()
            invariant
                0 <= i <= self.items@.len(),
                forall|j: int| 0 <= j < i ==> (#[trigger] self.items@[j]).id@ != id@,
            decreases self.items@.len() - i,
        {
            if crate::ffmpeg::str_eq(self.items[i].id(), id) {
                return Some(i);
            }
            i = i + 1;
        }
        None
    }

    /// Registers a root object, which must be a directory and must not
    /// collide with the two synthetic ids. A root of the same name
    /// replaces the earlier one in place; a fresh name is appended.
    pub fn add(&mut self, object: crate::local::Object)
        requires
            old(self).wf(),
            object.path@ == object.root.path@,
            object.id@ == object.root.title@,
            object.id@ != "0"@,
            object.id@ != "-1"@,
            object.dir,
        ensures
            final(self).wf(),
            !old(self).has_root(object.id@) ==> final(self).items_view() == old(
                self,
            ).items_view().push(object),
            old(self).has_root(object.id@) ==> final(self).items_view() == old(
                self,
            ).items_view().update(old(self).root_idx(object.id@), object),
    {
        let ghost pre = self.items@;
        let idx = self.find_root_index(object.id());
        match idx {
            Some(i) => {
                proof {
                    lemma_unique_root_idx(*self, object.id@, i as int);
                }
                self.items.set(i, object);
                proof {
                    assert forall|k: int| 0 <= k < self.items@.len() implies {
                        &&& (#[trigger] self.items@[k]).path@ == self.items@[k].root.path@
                        &&& self.items@[k].id@ == self.items@[k].root.title@
                        &&& self.items@[k].id@ != "0"@
                        &&& self.items@[k].id@ != "-1"@
                        &&& self.items@[k].dir
                    } by {
                        if k != i {
                            assert(self.items@[k] == pre[k]);
                            assert(old(self).items_view()[k] == pre[k]);
                        }
                    }
                    assert forall|k: int, l: int|
                        0 <= k < l < self.items@.len() implies (#[trigger] self.items@[k]).id@
                        != (#[trigger] self.items@[l]).id@ by {
                        assert(pre[k].id@ != pre[l].id@);
                        if k == i {
                            assert(self.items@[k].id@ == pre[k].id@);
                        }
                        if l == i {
                            assert(self.items@[l].id@ == pre[l].id@);
                        }
                    }
                }
            },
            None => {
                self.items.push(object);
                proof {
                    assert forall|k: int| 0 <= k < self.items@.len() implies {
                        &&& (#[trigger] self.items@[k]).path@ == self.items@[k].root.path@
                        &&& self.items@[k].id@ == self.items@[k].root.title@
                        &&& self.items@[k].id@ != "0"@
                        &&& self.items@[k].id@ != "-1"@
                        &&& self.items@[k].dir
                    } by {
                        if k < pre.len() {
                            assert(self.items@[k] == pre[k]);
                            assert(old(self).items_view()[k] == pre[k]);
                        } else {
                            assert(self.items@[k] == object);
                        }
                    }
                    assert forall|k: int, l: int|
                        0 <= k < l < self.items@.len() implies (#[trigger] self.items@[k]).id@
                        != (#[trigger] self.items@[l]).id@ by {
                        if l < pre.len() {
                            assert(pre[k].id@ != pre[l].id@);
                        } else {
                            assert(self.items@[l] == object);
                            assert(self.items@[k] == pre[k]);
                            if pre[k].id@ == object.id@ {
                                assert(old(self).has_root(object.id@));
                            }
                        }
                    }
                }
            },
        }
    }

    /// As [`Root::add`], for a boxed object.
    pub fn add_boxed(&mut self, object: Box<crate::local::Object>)
        requires
            old(self).wf(),
            object.path@ == object.root.path@,
            object.id@ == object.root.title@,
            object.id@ != "0"@,
            object.id@ != "-1"@,
            object.dir,
        ensures
            final(self).wf(),
            !old(self).has_root(object.id@) ==> final(self).items_view() == old(
                self,
            ).items_view().push(*object),
            old(self).has_root(object.id@) ==> final(self).items_view() == old(
                self,
            ).items_view().update(old(self).root_idx(object.id@), *object),
    {
        self.add(*object);
    }

    /// The virtual root's id.
    pub fn id(&self) -> (r: &'static str)
        ensures
            r@ == "0"@,
    {
        "0"
    }

    /// The virtual root's parent id, which never resolves.
    pub fn parent_id(&self) -> (r: &'static str)
        ensures
            r@ == "-1"@,
    {
        "-1"
    }

    /// The virtual root's display title.
    pub fn title(&self) -> (r: String)
        ensures
            r@ == "Rusty Media"@,
    {
        String::from_str("Rusty Media")
    }

    /// The virtual root is a directory.
    pub fn is_dir(&self) -> (r: bool)
        ensures
            r,
    {
        true
    }

    /// The virtual root's classification.
    pub fn file_type(&self) -> (r: crate::Type)
        ensures
            r == crate::Type::Directory,
    {
        crate::Type::Directory
    }

    /// Resolves an id: `"0"` is the virtual root; any other id selects the
    /// root named by its first segment and resolves the remainder inside
    /// it. `dir` tells whether the resolved path is a directory.
    #[verifier::loop_isolation(false)]
    pub fn lookup(&self, id: &str, dir: bool) -> (r: Result<Node, crate::error::Error>)
        requires
            self.wf(),
        ensures
            id@ == "0"@ ==> r matches Ok(Node::VirtualRoot),
            id@ != "0"@ ==> match r {
                Ok(n) => n matches Node::Item(o) && {
                    let first = id@.take(crate::local::seg_len(id@));
                    let rest = if crate::local::seg_len(id@) < id@.len() {
                        id@.skip(crate::local::seg_len(id@) + 1)
                    } else {
                        Seq::<char>::empty()
                    };
                    &&& (exists|i: int|
                        0 <= i < self.items_view().len() && (#[trigger] self.items_view()[i]).id@
                            == first && o.root == self.items_view()[i].root && o.path@
                            == self.items_view()[i].root.path@ + crate::local::spec_safe_suffix(
                            rest,
                        ))
                    &&& o.id@ == first + crate::local::spec_safe_suffix(rest)
                    &&& o.dir == dir
                    &&& crate::local::obj_wf(*o)
                },
                Err(e) => e matches crate::error::Error::NotFound(_) && !(exists|i: int|
                    0 <= i < self.items_view().len() && (#[trigger] self.items_view()[i]).id@
                        == id@.take(crate::local::seg_len(id@))),
            },
    {
        if crate::ffmpeg::str_eq(id, "0") {
            return Ok(Node::VirtualRoot);
        }
        let chars = crate::chars_of(id);
        let n = crate::local::seg_len_at(&chars, 0);
        proof {
            assert(chars@.skip(0) =~= id@);
        }
        let len = id.unicode_len();
        let first = id.substring_char(0, n);
        let rest = if n < len {
            id.substring_char(n + 1, len)
        } else {
            id.substring_char(len, len)
        };
        proof {
            assert(id@.subrange(0, n as int) =~= id@.take(n as int));
            if n < len {
                assert(id@.subrange(n + 1, len as int) =~= id@.skip(n + 1));
            } else {
                assert(id@.subrange(len as int, len as int) =~= Seq::<char>::empty());
            }
        }
        let mut i: usize = 0;
        while i < self.items.len()
            invariant
                self.wf(),
                0 <= i <= self.items@.len(),
                first@ == id@.take(crate::local::seg_len(id@)),
                forall|j: int| 0 <= j < i ==> (#[trigger] self.items@[j]).id@ != first@,
            decreases self.items@.len() - i,
        {
            if crate::ffmpeg::str_eq(self.items[i].id(), first) {
                proof {
                    assert(self.items_view()[i as int].path@
                        == self.items_view()[i as int].root.path@);
                    assert(self.items_view()[i as int].id@
                        == self.items_view()[i as int].root.title@);
                }
                let o = self.items[i].lookup(rest, dir)?;
                return Ok(Node::Item(o));
            }
            i = i + 1;
        }
        Err(crate::error::Error::NotFound(String::from_str(id)))
    }

    /// The virtual root's children: the roots, in insertion order.
    pub fn children(&self) -> (r: Vec<crate::local::Object>)
        requires
            self.wf(),
        ensures
            r@ == self.items_view(),
    {
        let mut r: Vec<crate::local::Object> = Vec::new();
        let mut i: usize = 0;
        while i < self.items.len()
            invariant
                0 <= i <= self.items@.len(),
                r@ == self.items@.take(i as int),
            decreases self.items@.len() - i,
        {
            let o = self.items[i].clone();
            r.push(o);
            proof {
                assert(r@ =~= self.items@.take(i + 1));
            }
            i = i + 1;
        }
        proof {
            assert(self.items@.take(self.items@.len() as int) =~= self.items@);
        }
        r
    }
}

/// In a well-formed root set the index of a present name is the one the
/// spec picks.
proof fn lemma_unique_root_idx(r: Root, id: Seq<char>, idx: int)
    requires
        r.wf(),
        0 <= idx < r.items_view().len(),
        r.items_view()[idx].id@ == id,
    ensures
        r.has_root(id),
        r.root_idx(id) == idx,
{
    assert(r.has_root(id));
    let j = r.root_idx(id);
    if j != idx {
        if j < idx {
            assert(r.items_view()[j].id@ != r.items_view()[idx].id@);
        } else {
            assert(r.items_view()[idx].id@ != r.items_view()[j].id@);
        }
    }
}

/// A well-formed relative id: every segment present, none empty and none
/// `..`.
pub open spec fn clean_rel(s: Seq<char>) -> bool
    decreases s.len(),
    via clean_rel_decreases
{
    let n = crate::local::seg_len(s);
    &&& s.len() > 0
    &&& n > 0
    &&& s.take(n) != ".."@
    &&& (n == s.len() || clean_rel(s.skip(n + 1)))
}

#[via_fn]
proof fn clean_rel_decreases(s: Seq<char>) {
    crate::local::lemma_seg_len_bounds(s);
}

/// Resolving a clean remainder loses nothing: the safe suffix is the
/// remainder itself under its separator. Together with the contract of
/// lookup, an id of the form `root/clean-remainder` resolves to an object
/// carrying exactly that id.
pub proof fn lemma_lookup_preserves_id(rest: Seq<char>)
    requires
        clean_rel(rest),
    ensures
        crate::local::spec_safe_suffix(rest) == seq!['/'] + rest,
    decreases rest.len(),
{
    let n = crate::local::seg_len(rest);
    crate::local::lemma_seg_len_bounds(rest);
    assert(crate::local::spec_safe_suffix(Seq::<char>::empty()) =~= Seq::<char>::empty());
    if n == rest.len() {
        assert(rest.take(n) =~= rest);
        assert(rest.skip(n) =~= Seq::<char>::empty());
        assert(seq!['/'] + rest.take(n) + Seq::<char>::empty() =~= seq!['/'] + rest);
    } else {
        lemma_lookup_preserves_id(rest.skip(n + 1));
        assert(rest[n] == '/');
        assert((seq!['/'] + rest.take(n)) + (seq!['/'] + rest.skip(n + 1)) =~= seq!['/'] + rest);
    }
}

} // verus!
