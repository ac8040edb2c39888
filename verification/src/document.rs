//! The document tree and the resolution of paths in it.

use crate::value::Number;
use vstd::prelude::*;

verus! {

/// A document as contracts speak of it.
///
/// An object lists its fields in the order in which they are written out.
pub enum Doc {
    Null,
    Bool(bool),
    Number(Number),
    Str(Seq<char>),
    Array(Seq<Doc>),
    Object(Seq<(Seq<char>, Doc)>),
}

/// Whether some field is called `name`.
pub open spec fn has_field(fields: Seq<(Seq<char>, Doc)>, name: Seq<char>) -> bool {
    exists|i: int| 0 <= i < fields.len() && (#[trigger] fields[i]).0 == name
}

/// The place of a field called `name`.
pub open spec fn field_index(fields: Seq<(Seq<char>, Doc)>, name: Seq<char>) -> int {
    choose|i: int| 0 <= i < fields.len() && (#[trigger] fields[i]).0 == name
}

/// Whether no two fields share a name.
pub open spec fn distinct_names(fields: Seq<(Seq<char>, Doc)>) -> bool {
    forall|i: int, j: int|
        0 <= i < fields.len() && 0 <= j < fields.len() && i != j ==> (#[trigger] fields[i]).0 != (
        #[trigger] fields[j]).0
}

/// The node under the field called `name`, if there is such a field.
pub open spec fn child(fields: Seq<(Seq<char>, Doc)>, name: Seq<char>) -> Option<Doc> {
    if has_field(fields, name) {
        Some(fields[field_index(fields, name)].1)
    } else {
        None
    }
}

/// The fields with `node` under `name`: in the place of the field of that name
/// if there is one, else at the end.
pub open spec fn put(fields: Seq<(Seq<char>, Doc)>, name: Seq<char>, node: Doc) -> Seq<
    (Seq<char>, Doc),
> {
    if has_field(fields, name) {
        fields.update(field_index(fields, name), (name, node))
    } else {
        fields.push((name, node))
    }
}

/// The fields without the one called `name`.
pub open spec fn without(fields: Seq<(Seq<char>, Doc)>, name: Seq<char>) -> Seq<(Seq<char>, Doc)> {
    if has_field(fields, name) {
        fields.remove(field_index(fields, name))
    } else {
        fields
    }
}

impl Doc {
    /// An object without fields.
    pub open spec fn empty() -> Doc {
        Doc::Object(Seq::empty())
    }

    /// The fields of an object; a node of any other kind has none.
    pub open spec fn fields(self) -> Seq<(Seq<char>, Doc)> {
        match self {
            Doc::Object(fields) => fields,
            _ => Seq::empty(),
        }
    }

    /// The node under the field called `name`; null where the node is no
    /// object or has no such field.
    pub open spec fn below(self, name: Seq<char>) -> Doc {
        match child(self.fields(), name) {
            Some(c) => c,
            None => Doc::Null,
        }
    }

    /// Whether every object in the document names each of its fields once.
    pub open spec fn wf(self) -> bool
        decreases self,
    {
        match self {
            Doc::Object(fields) => distinct_names(fields) && forall|i: int|
                0 <= i < fields.len() ==> (#[trigger] fields[i]).1.wf(),
            Doc::Array(items) => forall|i: int| 0 <= i < items.len() ==> (#[trigger] items[i]).wf(),
            _ => true,
        }
    }

    /// Whether no chain of arrays and objects that hold something, each in
    /// the one before, is longer than `room`.
    pub open spec fn fits(self, room: int) -> bool
        decreases self,
    {
        match self {
            Doc::Object(fields) => fields.len() == 0 || (room >= 1 && forall|i: int|
                0 <= i < fields.len() ==> (#[trigger] fields[i]).1.fits(room - 1)),
            Doc::Array(items) => items.len() == 0 || (room >= 1 && forall|i: int|
                0 <= i < items.len() ==> (#[trigger] items[i]).fits(room - 1)),
            _ => true,
        }
    }

    /// The document as it is written out: every number without the zeros
    /// that end its decimal fraction, and all else as it is.
    pub open spec fn canonical(self) -> Doc
        decreases self,
    {
        match self {
            Doc::Number(n) => Doc::Number(n.stripped()),
            Doc::Array(items) => Doc::Array(
                Seq::new(
                    items.len(),
                    |i: int|
                        if 0 <= i < items.len() {
                            items[i].canonical()
                        } else {
                            Doc::Null
                        },
                ),
            ),
            Doc::Object(fields) => Doc::Object(
                Seq::new(
                    fields.len(),
                    |i: int|
                        if 0 <= i < fields.len() {
                            (fields[i].0, fields[i].1.canonical())
                        } else {
                            (Seq::empty(), Doc::Null)
                        },
                ),
            ),
            _ => self,
        }
    }

    /// The node that `path` leads to, if every step finds an object with a
    /// field of the step's name.
    pub open spec fn read(self, path: Seq<Seq<char>>) -> Option<Doc>
        decreases path.len(),
    {
        if path.len() == 0 {
            Some(self)
        } else {
            match child(self.fields(), path[0]) {
                Some(c) => c.read(path.drop_first()),
                None => None,
            }
        }
    }

    /// The document with `leaf` at `path`.
    ///
    /// Every node on the way becomes an object: one that is missing is made,
    /// and one that is no object gives way to an empty one.
    pub open spec fn write(self, path: Seq<Seq<char>>, leaf: Doc) -> Doc
        recommends
            path.len() >= 1,
        decreases path.len(),
    {
        if path.len() <= 1 {
            Doc::Object(put(self.fields(), path[0], leaf))
        } else {
            Doc::Object(put(self.fields(), path[0], self.below(path[0]).write(path.drop_first(), leaf)))
        }
    }

    /// The node under the field called `name`; an empty object where the
    /// node has no such field.
    pub open spec fn made(self, name: Seq<char>) -> Doc {
        match child(self.fields(), name) {
            Some(c) => c,
            None => Doc::empty(),
        }
    }

    /// The document without the field that `path` ends in.
    ///
    /// An object that is missing on the way to that field is made, empty. A
    /// node on the way that is there and is no object is left as it is, and
    /// then nothing is removed.
    pub open spec fn erase(self, path: Seq<Seq<char>>) -> Doc
        recommends
            path.len() >= 1,
        decreases path.len(),
    {
        match self {
            Doc::Object(fields) => if path.len() <= 1 {
                Doc::Object(without(fields, path[0]))
            } else {
                Doc::Object(put(fields, path[0], self.made(path[0]).erase(path.drop_first())))
            },
            _ => self,
        }
    }
}

/// A node of the document tree.
#[derive(Debug, PartialEq)]
pub enum Node {
    Null,
    Bool(bool),
    Number(Number),
    Str(String),
    Array(Vec<Node>),
    Object(Vec<(String, Node)>),
}

impl Node {
    /// The document that the node holds.
    pub open spec fn doc(&self) -> Doc
        decreases self,
    {
        match self {
            Node::Null => Doc::Null,
            Node::Bool(b) => Doc::Bool(*b),
            Node::Number(n) => Doc::Number(*n),
            Node::Str(s) => Doc::Str(s@),
            Node::Array(items) => Doc::Array(
                Seq::new(
                    items.len() as nat,
                    |i: int|
                        if 0 <= i < items.len() {
                            items[i].doc()
                        } else {
                            Doc::Null
                        },
                ),
            ),
            Node::Object(fields) => Doc::Object(
                Seq::new(
                    fields.len() as nat,
                    |i: int|
                        if 0 <= i < fields.len() {
                            (fields[i].0@, fields[i].1.doc())
                        } else {
                            (Seq::empty(), Doc::Null)
                        },
                ),
            ),
        }
    }
}

impl View for Node {
    type V = Doc;

    open spec fn view(&self) -> Doc {
        self.doc()
    }
}

/// The place of the first field called `name`.
pub fn find(fields: &Vec<(String, Node)>, name: &String) -> (found: Option<usize>)
    ensures
        match found {
            Some(i) => i < fields.len() && fields[i as int].0@ == name@ && forall|j: int|
                0 <= j < i ==> (#[trigger] fields[j]).0@ != name@,
            None => forall|j: int| 0 <= j < fields.len() ==> (#[trigger] fields[j]).0@ != name@,
        },
{
    let mut i: usize = 0;
    while i < fields.len()
        invariant
            i <= fields.len(),
            forall|j: int| 0 <= j < i ==> (#[trigger] fields[j]).0@ != name@,
        decreases fields.len() - i,
    {
        if fields[i].0 == *name {
            return Some(i);
        }
        i += 1;
    }
    None
}


/// The names that a path's segments hold.
pub open spec fn names(path: Seq<String>) -> Seq<Seq<char>> {
    Seq::new(path.len(), |i: int| path[i]@)
}

/// A field found at `k` is the field that `child` and `put` speak of.
pub proof fn lemma_field_found(fields: Seq<(Seq<char>, Doc)>, name: Seq<char>, k: int)
    requires
        distinct_names(fields),
        0 <= k < fields.len(),
        fields[k].0 == name,
    ensures
        has_field(fields, name),
        field_index(fields, name) == k,
        child(fields, name) == Some(fields[k].1),
{
    let i = field_index(fields, name);
    assert(fields[i].0 == fields[k].0);
}

/// Where no field has the name, `child` finds nothing.
pub proof fn lemma_field_missing(fields: Seq<(Seq<char>, Doc)>, name: Seq<char>)
    requires
        forall|j: int| 0 <= j < fields.len() ==> (#[trigger] fields[j]).0 != name,
    ensures
        !has_field(fields, name),
        child(fields, name) is None,
{
}

/// What `put` does to the fields: the names stay distinct, the name put
/// leads to the new node, and every other name leads where it led.
pub proof fn lemma_put(fields: Seq<(Seq<char>, Doc)>, name: Seq<char>, node: Doc)
    requires
        distinct_names(fields),
    ensures
        distinct_names(put(fields, name, node)),
        child(put(fields, name, node), name) == Some(node),
        forall|other: Seq<char>|
            other != name ==> #[trigger] child(put(fields, name, node), other) == child(
                fields,
                other,
            ),
{
    let after = put(fields, name, node);
    let k = if has_field(fields, name) {
        field_index(fields, name)
    } else {
        fields.len() as int
    };
    assert(forall|i: int| 0 <= i < after.len() ==> (#[trigger] after[i]).0 == if i == k {
        name
    } else {
        fields[i].0
    });
    assert(distinct_names(after));
    lemma_field_found(after, name, k);
    assert forall|other: Seq<char>| other != name implies #[trigger] child(after, other) == child(
        fields,
        other,
    ) by {
        if has_field(fields, other) {
            let m = field_index(fields, other);
            assert(after[m] == fields[m]);
            lemma_field_found(after, other, m);
        } else {
            lemma_field_missing(after, other);
        }
    }
}

/// What `without` does to the fields: the names stay distinct, the name
/// taken out leads nowhere, and every other name leads where it led.
pub proof fn lemma_without(fields: Seq<(Seq<char>, Doc)>, name: Seq<char>)
    requires
        distinct_names(fields),
    ensures
        distinct_names(without(fields, name)),
        child(without(fields, name), name) is None,
        forall|other: Seq<char>|
            other != name ==> #[trigger] child(without(fields, name), other) == child(
                fields,
                other,
            ),
{
    let after = without(fields, name);
    if has_field(fields, name) {
        let k = field_index(fields, name);
        assert(forall|i: int| 0 <= i < after.len() ==> #[trigger] after[i] == fields[if i < k {
            i
        } else {
            i + 1
        }]);
        assert(distinct_names(after));
        lemma_field_missing(after, name);
        assert forall|other: Seq<char>| other != name implies #[trigger] child(after, other)
            == child(fields, other) by {
            if has_field(fields, other) {
                let m = field_index(fields, other);
                let m2 = if m < k {
                    m
                } else {
                    m - 1
                };
                assert(after[m2] == fields[m]);
                lemma_field_found(after, other, m2);
            } else {
                lemma_field_missing(after, other);
            }
        }
    } else {
        lemma_field_missing(after, name);
    }
}

/// Writing a document out in its canonical form nests no deeper.
pub proof fn lemma_canonical_fits(d: Doc, room: int)
    ensures
        d.canonical().fits(room) == d.fits(room),
    decreases d,
{
    match d {
        Doc::Object(fields) => {
            let after = d.canonical()->Object_0;
            assert forall|i: int| 0 <= i < fields.len() implies (#[trigger] after[i]).1.fits(
                room - 1,
            ) == fields[i].1.fits(room - 1) by {
                lemma_canonical_fits(fields[i].1, room - 1);
            }
            if fields.len() > 0 && room >= 1 {
                if d.fits(room) {
                    assert forall|i: int| 0 <= i < after.len() implies (#[trigger] after[i]).1.fits(
                        room - 1,
                    ) by {
                        assert(fields[i].1.fits(room - 1));
                    }
                }
                if d.canonical().fits(room) {
                    assert forall|i: int| 0 <= i < fields.len() implies (
                    #[trigger] fields[i]).1.fits(room - 1) by {
                        assert(after[i].1.fits(room - 1));
                    }
                }
            }
        },
        Doc::Array(items) => {
            let after = d.canonical()->Array_0;
            assert forall|i: int| 0 <= i < items.len() implies (#[trigger] after[i]).fits(room - 1)
                == items[i].fits(room - 1) by {
                lemma_canonical_fits(items[i], room - 1);
            }
            if items.len() > 0 && room >= 1 {
                if d.fits(room) {
                    assert forall|i: int| 0 <= i < after.len() implies (#[trigger] after[i]).fits(
                        room - 1,
                    ) by {
                        assert(items[i].fits(room - 1));
                    }
                }
                if d.canonical().fits(room) {
                    assert forall|i: int| 0 <= i < items.len() implies (#[trigger] items[i]).fits(
                        room - 1,
                    ) by {
                        assert(after[i].fits(room - 1));
                    }
                }
            }
        },
        _ => {},
    }
}

impl Node {
    /// Whether no chain of arrays and objects that hold something, each in
    /// the one before, is longer than `room`.
    #[verifier::loop_isolation(false)]
    pub fn fits(&self, room: usize) -> (yes: bool)
        ensures
            yes == self@.fits(room as int),
        decreases self,
    {
        match self {
            Node::Object(fields) => {
                if fields.len() == 0 {
                    return true;
                }
                if room == 0 {
                    return false;
                }
                let mut i: usize = 0;
                while i < fields.len()
                    invariant
                        i <= fields.len(),
                        forall|j: int| 0 <= j < i ==> (#[trigger] fields[j]).1@.fits(room - 1),
                    decreases fields.len() - i,
                {
                    if !fields[i].1.fits(room - 1) {
                        assert(self@->Object_0[i as int].1 == fields[i as int].1@);
                        return false;
                    }
                    i += 1;
                }
                assert forall|j: int| 0 <= j < fields.len() implies (
                #[trigger] self@->Object_0[j]).1.fits(room - 1) by {
                    assert(self@->Object_0[j].1 == fields[j].1@);
                }
                true
            },
            Node::Array(items) => {
                if items.len() == 0 {
                    return true;
                }
                if room == 0 {
                    return false;
                }
                let mut i: usize = 0;
                while i < items.len()
                    invariant
                        i <= items.len(),
                        forall|j: int| 0 <= j < i ==> (#[trigger] items[j])@.fits(room - 1),
                    decreases items.len() - i,
                {
                    if !items[i].fits(room - 1) {
                        assert(self@->Array_0[i as int] == items[i as int]@);
                        return false;
                    }
                    i += 1;
                }
                assert forall|j: int| 0 <= j < items.len() implies (
                #[trigger] self@->Array_0[j]).fits(room - 1) by {
                    assert(self@->Array_0[j] == items[j]@);
                }
                true
            },
            _ => true,
        }
    }

    /// Whether the node is an object.
    pub fn is_object(&self) -> (yes: bool)
        ensures
            yes == (self@ is Object),
    {
        match self {
            Node::Object(_) => true,
            _ => false,
        }
    }

    /// Follows `path` down from this node without changing anything.
    ///
    /// The result is the node that the last segment names. There is none
    /// where a step meets a node that is no object, or an object without a
    /// field of the step's name.
    pub fn resolve_read<'a>(&'a self, path: &Vec<String>) -> (found: Option<&'a Node>)
        requires
            self@.wf(),
        ensures
            match found {
                Some(node) => self@.read(names(path@)) == Some(node@) && node@.wf(),
                None => self@.read(names(path@)) is None,
            },
    {
        let ghost whole = names(path@);
        let mut cur: &Node = self;
        let mut i: usize = 0;
        assert(whole.subrange(0, whole.len() as int) =~= whole);
        while i < path.len()
            invariant
                i <= path.len(),
                whole == names(path@),
                cur@.wf(),
                self@.read(whole) == cur@.read(whole.subrange(i as int, whole.len() as int)),
            decreases path.len() - i,
        {
            let ghost rest = whole.subrange(i as int, whole.len() as int);
            assert(rest[0] == path[i as int]@);
            assert(rest.drop_first() =~= whole.subrange(i + 1, whole.len() as int));
            match cur {
                Node::Object(fields) => {
                    match find(fields, &path[i]) {
                        Some(k) => {
                            proof {
                                lemma_field_found(cur@.fields(), rest[0], k as int);
                            }
                            cur = &fields[k].1;
                        },
                        None => {
                            proof {
                                lemma_field_missing(cur@.fields(), rest[0]);
                            }
                            return None;
                        },
                    }
                },
                _ => {
                    proof {
                        lemma_field_missing(cur@.fields(), rest[0]);
                    }
                    return None;
                },
            }
            i += 1;
        }
        assert(whole.subrange(i as int, whole.len() as int) =~= Seq::<Seq<char>>::empty());
        Some(cur)
    }

    /// Puts `leaf` where `path`, taken from its segment `from` on, leads.
    ///
    /// Every node on the way is made an object first: a missing one is
    /// created, and one of another kind is replaced by an empty object.
    pub fn resolve_write(&mut self, path: &Vec<String>, from: usize, leaf: Node)
        requires
            old(self)@.wf(),
            leaf@.wf(),
            from < path.len(),
        ensures
            final(self)@ == old(self)@.write(
                names(path@).subrange(from as int, path.len() as int),
                leaf@,
            ),
            final(self)@.wf(),
        decreases path.len() - from,
    {
        let ghost rest = names(path@).subrange(from as int, path.len() as int);
        let ghost before = old(self)@.fields();
        assert(rest[0] == path[from as int]@);
        assert(rest.drop_first() =~= names(path@).subrange(from + 1, path.len() as int));
        if !self.is_object() {
            *self = Node::Object(Vec::new());
        }
        assert(self@.fields() =~= before);
        let last = from + 1 == path.len();
        match self {
            Node::Object(fields) => {
                match find(fields, &path[from]) {
                    Some(k) => {
                        proof {
                            lemma_field_found(before, rest[0], k as int);
                        }
                        if last {
                            fields[k].1 = leaf;
                        } else {
                            fields[k].1.resolve_write(path, from + 1, leaf);
                        }
                    },
                    None => {
                        proof {
                            lemma_field_missing(before, rest[0]);
                        }
                        if last {
                            fields.push((path[from].clone(), leaf));
                        } else {
                            let mut below = Node::Null;
                            below.resolve_write(path, from + 1, leaf);
                            fields.push((path[from].clone(), below));
                        }
                    },
                }
            },
            _ => {},
        }
        proof {
            let after = self@.fields();
            let k = if has_field(before, rest[0]) {
                field_index(before, rest[0])
            } else {
                before.len() as int
            };
            assert(after =~= put(before, rest[0], after[k].1));
        }
    }

    /// Removes the field in which `path`, taken from its segment `from` on,
    /// ends. Nothing is removed where the parent has no such field.
    ///
    /// An object that is missing on the way to the parent is made, empty. A
    /// node on the way that is there and is no object is left as it is, and
    /// then nothing is removed.
    pub fn resolve_remove(&mut self, path: &Vec<String>, from: usize)
        requires
            old(self)@.wf(),
            from < path.len(),
        ensures
            final(self)@ == old(self)@.erase(names(path@).subrange(from as int, path.len() as int)),
            final(self)@.wf(),
        decreases path.len() - from,
    {
        let ghost rest = names(path@).subrange(from as int, path.len() as int);
        let ghost before = old(self)@.fields();
        assert(rest[0] == path[from as int]@);
        assert(rest.drop_first() =~= names(path@).subrange(from + 1, path.len() as int));
        let last = from + 1 == path.len();
        match self {
            Node::Object(fields) => {
                match find(fields, &path[from]) {
                    Some(k) => {
                        proof {
                            lemma_field_found(before, rest[0], k as int);
                        }
                        if last {
                            fields.remove(k);
                        } else {
                            fields[k].1.resolve_remove(path, from + 1);
                        }
                    },
                    None => {
                        proof {
                            lemma_field_missing(before, rest[0]);
                        }
                        if !last {
                            let mut below = Node::Object(Vec::new());
                            assert(below@.fields() =~= Seq::empty());
                            below.resolve_remove(path, from + 1);
                            fields.push((path[from].clone(), below));
                        }
                    },
                }
                proof {
                    let after = self@.fields();
                    if last {
                        assert(after =~= without(before, rest[0]));
                    } else {
                        let k = if has_field(before, rest[0]) {
                            field_index(before, rest[0])
                        } else {
                            before.len() as int
                        };
                        assert(after =~= put(before, rest[0], after[k].1));
                    }
                }
            },
            _ => {},
        }
    }
}

} // verus!
