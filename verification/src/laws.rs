//! What holds of reading, writing and erasing in any document.

use crate::binary::value_of;
use crate::document::{
    child, field_index, has_field, lemma_field_found, lemma_field_missing, lemma_put,
    lemma_without, put, without, Doc,
};
use crate::value::ValueView;
use vstd::prelude::*;

verus! {

/// Writing keeps a document well formed.
pub proof fn law_write_keeps_wf(d: Doc, path: Seq<Seq<char>>, leaf: Doc)
    requires
        d.wf(),
        leaf.wf(),
        path.len() >= 1,
    ensures
        d.write(path, leaf).wf(),
    decreases path.len(),
{
    let node = if path.len() == 1 {
        leaf
    } else {
        d.below(path[0]).write(path.drop_first(), leaf)
    };
    if path.len() > 1 {
        law_write_keeps_wf(d.below(path[0]), path.drop_first(), leaf);
    }
    lemma_put_keeps_wf(d.fields(), path[0], node);
}

/// Erasing keeps a document well formed.
pub proof fn law_erase_keeps_wf(d: Doc, path: Seq<Seq<char>>)
    requires
        d.wf(),
        path.len() >= 1,
    ensures
        d.erase(path).wf(),
    decreases path.len(),
{
    if d is Object {
        if path.len() == 1 {
            lemma_without(d.fields(), path[0]);
            let after = without(d.fields(), path[0]);
            assert forall|i: int| 0 <= i < after.len() implies (#[trigger] after[i]).1.wf() by {
                if has_field(d.fields(), path[0]) {
                    let k = field_index(d.fields(), path[0]);
                    assert(after[i] == d.fields()[if i < k {
                        i
                    } else {
                        i + 1
                    }]);
                }
            }
        } else {
            law_erase_keeps_wf(d.made(path[0]), path.drop_first());
            lemma_put_keeps_wf(d.fields(), path[0], d.made(path[0]).erase(path.drop_first()));
        }
    }
}

/// Putting a well-formed node among well-formed fields leaves them so.
pub proof fn lemma_put_keeps_wf(fields: Seq<(Seq<char>, Doc)>, name: Seq<char>, node: Doc)
    requires
        Doc::Object(fields).wf(),
        node.wf(),
    ensures
        Doc::Object(put(fields, name, node)).wf(),
{
    lemma_put(fields, name, node);
    let after = put(fields, name, node);
    assert forall|i: int| 0 <= i < after.len() implies (#[trigger] after[i]).1.wf() by {
        if i < fields.len() && after[i] != (name, node) {
            assert(after[i] == fields[i]);
        }
    }
}

/// What was written at a path is what is read there.
pub proof fn law_read_after_write(d: Doc, path: Seq<Seq<char>>, leaf: Doc)
    requires
        d.wf(),
        path.len() >= 1,
    ensures
        d.write(path, leaf).read(path) == Some(leaf),
    decreases path.len(),
{
    let node = if path.len() == 1 {
        leaf
    } else {
        d.below(path[0]).write(path.drop_first(), leaf)
    };
    lemma_put(d.fields(), path[0], node);
    if path.len() == 1 {
        assert(node.read(path.drop_first()) == Some(node));
    } else {
        law_read_after_write(d.below(path[0]), path.drop_first(), leaf);
    }
}

/// After a path was erased, nothing is read there.
pub proof fn law_read_after_erase(d: Doc, path: Seq<Seq<char>>)
    requires
        d.wf(),
        path.len() >= 1,
    ensures
        d.erase(path).read(path) is None,
    decreases path.len(),
{
    if d is Object {
        if path.len() == 1 {
            lemma_without(d.fields(), path[0]);
        } else {
            lemma_put(d.fields(), path[0], d.made(path[0]).erase(path.drop_first()));
            law_read_after_erase(d.made(path[0]), path.drop_first());
        }
    } else {
        lemma_field_missing(d.fields(), path[0]);
    }
}

/// In a document without fields no path leads anywhere.
pub proof fn law_read_empty(path: Seq<Seq<char>>)
    requires
        path.len() >= 1,
    ensures
        Doc::empty().read(path) is None,
{
    lemma_field_missing(Doc::empty().fields(), path[0]);
}

/// Erasing a field that is not there changes nothing, provided the parent
/// that `path` names is there, whatever it is.
pub proof fn law_erase_absent(d: Doc, path: Seq<Seq<char>>)
    requires
        d.wf(),
        path.len() >= 1,
        d.read(path.drop_last()) is Some,
        d.read(path) is None,
    ensures
        d.erase(path) == d,
    decreases path.len(),
{
    if d is Object {
        if path.len() == 1 {
            if let Some(c) = child(d.fields(), path[0]) {
                assert(c.read(path.drop_first()) == Some(c));
            }
            assert(without(d.fields(), path[0]) == d.fields());
        } else {
            let name = path[0];
            let rest = path.drop_first();
            assert(path.drop_last()[0] == name);
            assert(path.drop_last().drop_first() =~= rest.drop_last());
            let k = field_index(d.fields(), name);
            let c = d.fields()[k].1;
            law_erase_absent(c, rest);
            assert(put(d.fields(), name, c) =~= d.fields());
        }
    }
}

/// Erasing a path at which nothing is read changes no value: whatever
/// path is read afterwards gives the value that it gave before. An object
/// that the erasing made on its way is read as no value.
pub proof fn law_erase_unread(d: Doc, path: Seq<Seq<char>>, read: Seq<Seq<char>>)
    requires
        d.wf(),
        path.len() >= 1,
        d.read(path) is None,
    ensures
        value_of(d.erase(path).read(read)) == value_of(d.read(read)),
    decreases path.len(),
{
    if d is Object && read.len() > 0 {
        if path.len() == 1 {
            if let Some(c) = child(d.fields(), path[0]) {
                assert(c.read(path.drop_first()) == Some(c));
            }
            assert(without(d.fields(), path[0]) == d.fields());
        } else {
            let rest = path.drop_first();
            let below = d.made(path[0]);
            lemma_put(d.fields(), path[0], below.erase(rest));
            if read[0] == path[0] {
                if child(d.fields(), path[0]) is None {
                    law_read_empty(rest);
                    if read.drop_first().len() > 0 {
                        law_read_empty(read.drop_first());
                    }
                }
                law_erase_unread(below, rest, read.drop_first());
            }
        }
    }
}

/// Writing at one path leaves what is read at another as it was, where the
/// two part ways at segment `i`.
pub proof fn law_write_frame(d: Doc, written: Seq<Seq<char>>, leaf: Doc, read: Seq<Seq<char>>, i: int)
    requires
        d.wf(),
        0 <= i < written.len(),
        i < read.len(),
        written.subrange(0, i) == read.subrange(0, i),
        written[i] != read[i],
    ensures
        d.write(written, leaf).read(read) == d.read(read),
    decreases i,
{
    let node = if written.len() == 1 {
        leaf
    } else {
        d.below(written[0]).write(written.drop_first(), leaf)
    };
    lemma_put(d.fields(), written[0], node);
    if i > 0 {
        assert(written[0] == written.subrange(0, i)[0]);
        assert(read[0] == read.subrange(0, i)[0]);
        assert(written.drop_first().subrange(0, i - 1) =~= written.subrange(0, i).drop_first());
        assert(read.drop_first().subrange(0, i - 1) =~= read.subrange(0, i).drop_first());
        law_write_frame(d.below(written[0]), written.drop_first(), leaf, read.drop_first(), i - 1);
        if child(d.fields(), read[0]) is None {
            lemma_field_missing(Doc::Null.fields(), read.drop_first()[0]);
        }
    }
}

/// Erasing at one path leaves what is read at another as it was, where the
/// two part ways at segment `i`.
pub proof fn law_erase_frame(d: Doc, erased: Seq<Seq<char>>, read: Seq<Seq<char>>, i: int)
    requires
        d.wf(),
        0 <= i < erased.len(),
        i < read.len(),
        erased.subrange(0, i) == read.subrange(0, i),
        erased[i] != read[i],
    ensures
        d.erase(erased).read(read) == d.read(read),
    decreases i,
{
    if d is Object {
        if erased.len() == 1 {
            lemma_without(d.fields(), erased[0]);
        } else {
            lemma_put(d.fields(), erased[0], d.made(erased[0]).erase(erased.drop_first()));
        }
        if i > 0 {
            assert(erased[0] == erased.subrange(0, i)[0]);
            assert(read[0] == read.subrange(0, i)[0]);
            assert(erased.drop_first().subrange(0, i - 1) =~= erased.subrange(0, i).drop_first());
            assert(read.drop_first().subrange(0, i - 1) =~= read.subrange(0, i).drop_first());
            law_erase_frame(d.made(erased[0]), erased.drop_first(), read.drop_first(), i - 1);
            if child(d.fields(), read[0]) is None {
                lemma_field_missing(Doc::empty().fields(), read.drop_first()[0]);
            }
        }
    }
}

/// After a write, every node on the way to the leaf is an object: each
/// proper prefix of the path, of `k` segments, leads to one, and so to
/// nothing that is read as a value.
pub proof fn law_write_makes_objects(d: Doc, path: Seq<Seq<char>>, leaf: Doc, k: int)
    requires
        d.wf(),
        0 <= k < path.len(),
    ensures
        d.write(path, leaf).read(path.subrange(0, k)) matches Some(node) && node is Object,
        value_of(d.write(path, leaf).read(path.subrange(0, k))) is None,
    decreases k,
{
    if k > 0 {
        let node = d.below(path[0]).write(path.drop_first(), leaf);
        lemma_put(d.fields(), path[0], node);
        assert(path.subrange(0, k)[0] == path[0]);
        assert(path.subrange(0, k).drop_first() =~= path.drop_first().subrange(0, k - 1));
        law_write_makes_objects(d.below(path[0]), path.drop_first(), leaf, k - 1);
    }
}

/// A value as it stands in what is written out: a number without the
/// zeros that end its decimal fraction, and any other value as it is.
pub open spec fn written(v: Option<ValueView>) -> Option<ValueView> {
    match v {
        Some(ValueView::Number(n)) => Some(ValueView::Number(n.stripped())),
        _ => v,
    }
}

/// What is read in the document's written form is the written form of
/// what is read in the document.
pub proof fn law_read_canonical(d: Doc, path: Seq<Seq<char>>)
    requires
        d.wf(),
    ensures
        d.canonical().read(path) == match d.read(path) {
            Some(node) => Some(node.canonical()),
            None => None,
        },
    decreases path.len(),
{
    if path.len() > 0 {
        let fields = d.fields();
        let after = d.canonical().fields();
        assert(after.len() == fields.len());
        assert(forall|i: int|
            0 <= i < fields.len() ==> (#[trigger] after[i]).0 == fields[i].0 && after[i].1
                == fields[i].1.canonical());
        if has_field(fields, path[0]) {
            let k = field_index(fields, path[0]);
            lemma_field_found(after, path[0], k);
            law_read_canonical(fields[k].1, path.drop_first());
        } else {
            lemma_field_missing(after, path[0]);
        }
    }
}

/// The values that are read in the document's written form are those
/// that are read in the document, each in its written form. So a store
/// that holds what `save` writes gives every key the value that the saved
/// store gives it.
pub proof fn law_values_canonical(d: Doc, path: Seq<Seq<char>>)
    requires
        d.wf(),
    ensures
        value_of(d.canonical().read(path)) == written(value_of(d.read(path))),
{
    law_read_canonical(d, path);
}

} // verus!
