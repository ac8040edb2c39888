//! The configuration store.
//!
//! The store keeps its settings in memory. It reads no file and writes
//! none: `load` is handed what reading the file gave, `save` hands out the
//! text to write, and `set` and `delete` say whether the change is to be
//! saved at once.

use crate::binary::{leaf_of, node_to_value, reads_back, value_of, value_to_node};
use crate::document::{names, Doc, Node};
use crate::laws::{
    law_erase_absent, law_erase_frame, law_erase_unread, law_read_after_erase,
    law_read_after_write, law_read_empty, law_write_frame,
};
use crate::path::{law_split_len, part_at, part_ways, split, split_path};
use crate::text::{
    document_of, json_pretty, parse_document, render, wrong_type, INDENT, MAX_NESTING,
};
use crate::value::{view_of, Number, Value, ValueView};
use vstd::prelude::*;
use vstd::string::*;

verus! {

/// `std::io::Error`: what reading or writing a file reports, opaque here.
#[verifier::external_type_specification]
#[verifier::external_body]
pub struct ExIoError(std::io::Error);

/// A store of typed settings under dotted keys.
pub trait Config {
    /// Whether the store is in order. A new store is, and every method
    /// keeps it so.
    spec fn wf(&self) -> bool;

    /// The value under `key`, if there is one.
    spec fn entry(&self, key: Seq<char>) -> Option<ValueView>;

    /// Reads the value under `key`.
    fn get(&self, key: &str) -> (value: Option<Value>)
        requires
            self.wf(),
        ensures
            view_of(value) == self.entry(key@),
    ;

    /// Puts `value` under `key`. The result says whether the store is to be
    /// saved at once.
    ///
    /// The value is then read under the key as it was written, unless it is
    /// null or a string in the form in which bytes are kept. Under a key
    /// whose path parts ways with this one the value is as before.
    fn set(&mut self, key: &str, value: Value) -> (save: bool)
        requires
            old(self).wf(),
        ensures
            final(self).wf(),
            reads_back(value@) ==> final(self).entry(key@) == Some(value@),
            forall|other: Seq<char>|
                part_ways(split(key@), split(other)) ==> #[trigger] final(self).entry(other) == old(
                    self,
                ).entry(other),
    ;

    /// Removes what is under `key`, if anything. The result says whether
    /// the store is to be saved at once.
    ///
    /// Under a key whose path parts ways with this one the value is as
    /// before.
    fn delete(&mut self, key: &str) -> (save: bool)
        requires
            old(self).wf(),
        ensures
            final(self).wf(),
            final(self).entry(key@) is None,
            forall|other: Seq<char>|
                part_ways(split(key@), split(other)) ==> #[trigger] final(self).entry(other) == old(
                    self,
                ).entry(other),
    ;

    /// The string under `key`; none where the value is of another kind.
    fn get_str(&self, key: &str) -> (found: Option<String>)
        requires
            self.wf(),
        ensures
            match self.entry(key@) {
                Some(ValueView::String(s)) => found matches Some(x) && x@ == s,
                _ => found is None,
            },
    {
        match self.get(key) {
            Some(Value::String(x)) => Some(x),
            _ => None,
        }
    }

    /// The number under `key`; none where the value is of another kind.
    fn get_f64(&self, key: &str) -> (found: Option<Number>)
        requires
            self.wf(),
        ensures
            match self.entry(key@) {
                Some(ValueView::Number(n)) => found == Some(n),
                _ => found is None,
            },
    {
        match self.get(key) {
            Some(Value::Number(x)) => Some(x),
            _ => None,
        }
    }

    /// The boolean under `key`; none where the value is of another kind.
    fn get_bool(&self, key: &str) -> (found: Option<bool>)
        requires
            self.wf(),
        ensures
            match self.entry(key@) {
                Some(ValueView::Bool(b)) => found == Some(b),
                _ => found is None,
            },
    {
        match self.get(key) {
            Some(Value::Bool(x)) => Some(x),
            _ => None,
        }
    }

    /// The bytes under `key`; none where the value is of another kind.
    fn get_bytes(&self, key: &str) -> (found: Option<Vec<u8>>)
        requires
            self.wf(),
        ensures
            match self.entry(key@) {
                Some(ValueView::Bytes(b)) => found matches Some(x) && x@ == b,
                _ => found is None,
            },
    {
        match self.get(key) {
            Some(Value::Bytes(x)) => Some(x),
            _ => None,
        }
    }
}

/// What reading the store's file gave.
#[derive(Debug)]
pub enum FileRead {
    /// The file's text.
    Contents(String),
    /// There is no such file.
    Missing,
    /// The file could not be read.
    Failed(std::io::Error),
}

/// Why a store could not be loaded.
#[derive(Debug)]
pub enum JsonConfigError {
    /// The text is no JSON, or what it holds is no object.
    Parse(json::Error),
    /// The file could not be read.
    Io(std::io::Error),
}

/// A store that keeps its settings as a JSON document in one file.
pub struct JsonConfig {
    auto_save: bool,
    path: String,
    data: Node,
}

/// The document that a text is loaded as: the one that `json::parse` reads,
/// where it is an object.
pub open spec fn loaded(text: Seq<char>) -> Option<Doc> {
    match document_of(text) {
        Some(Doc::Object(fields)) => Some(Doc::Object(fields)),
        _ => None,
    }
}

impl View for JsonConfig {
    type V = Doc;

    closed spec fn view(&self) -> Doc {
        self.data@
    }
}

impl JsonConfig {
    /// Whether every change is to be saved at once.
    pub closed spec fn auto_saves(&self) -> bool {
        self.auto_save
    }

    /// The path of the store's file.
    pub closed spec fn file(&self) -> Seq<char> {
        self.path@
    }

    /// A store without settings, for the file at `path`.
    pub fn new(path: &str, auto_save: bool) -> (config: JsonConfig)
        ensures
            config.wf(),
            config@ == Doc::empty(),
            config.auto_saves() == auto_save,
            config.file() == path@,
            forall|key: Seq<char>| #[trigger] config.entry(key) is None,
    {
        let data = Node::Object(Vec::new());
        assert(data@.fields() =~= Seq::empty());
        assert forall|key: Seq<char>| #[trigger] value_of(data@.read(split(key))) is None by {
            law_split_len(key);
            law_read_empty(split(key));
        }
        JsonConfig { auto_save, path: String::from_str(path), data }
    }

    /// The path of the store's file.
    pub fn path(&self) -> (path: &str)
        ensures
            path@ == self.file(),
    {
        self.path.as_str()
    }

    /// Whether every change is to be saved at once.
    pub fn auto_save(&self) -> (yes: bool)
        ensures
            yes == self.auto_saves(),
    {
        self.auto_save
    }

    /// Takes in what parsing the file's text gave: a document that is an
    /// object takes the place of the store's settings. Any other outcome is
    /// an error and leaves them as they are.
    pub fn install(&mut self, parsed: Result<Node, json::Error>) -> (res: Result<
        (),
        JsonConfigError,
    >)
        requires
            old(self).wf(),
            parsed matches Ok(node) ==> node@.wf(),
        ensures
            final(self).wf(),
            final(self).auto_saves() == old(self).auto_saves(),
            final(self).file() == old(self).file(),
            match parsed {
                Ok(node) => if node@ is Object {
                    res is Ok && final(self)@ == node@
                } else {
                    res matches Err(JsonConfigError::Parse(_)) && final(self)@ == old(self)@
                },
                Err(e) => res matches Err(JsonConfigError::Parse(x)) && x == e && final(self)@
                    == old(self)@,
            },
    {
        match parsed {
            Ok(node) => {
                if node.is_object() {
                    self.data = node;
                    Ok(())
                } else {
                    Err(JsonConfigError::Parse(wrong_type("not object")))
                }
            },
            Err(e) => Err(JsonConfigError::Parse(e)),
        }
    }

    /// Loads the store from what reading its file gave.
    ///
    /// A missing file is no error and leaves the settings as they are. A
    /// file that could not be read, a text that is no JSON and a text that
    /// holds anything but an object are errors, and leave them too.
    pub fn load(&mut self, read: FileRead) -> (res: Result<(), JsonConfigError>)
        requires
            old(self).wf(),
        ensures
            final(self).wf(),
            final(self).auto_saves() == old(self).auto_saves(),
            final(self).file() == old(self).file(),
            match read {
                FileRead::Missing => res is Ok && final(self)@ == old(self)@,
                FileRead::Failed(e) => res matches Err(JsonConfigError::Io(x)) && x == e
                    && final(self)@ == old(self)@,
                FileRead::Contents(text) => match loaded(text@) {
                    Some(d) => res is Ok && final(self)@ == d,
                    None => res matches Err(JsonConfigError::Parse(_)) && final(self)@ == old(
                        self,
                    )@,
                },
            },
    {
        match read {
            FileRead::Missing => Ok(()),
            FileRead::Failed(e) => Err(JsonConfigError::Io(e)),
            FileRead::Contents(text) => {
                let parsed = parse_document(text.as_str());
                self.install(parsed)
            },
        }
    }

    /// The text to write to the store's file: the whole document, indented.
    ///
    /// There is none where the document is nested too deep to be written.
    pub fn save(&self) -> (text: Option<String>)
        requires
            self.wf(),
        ensures
            text is Some <==> self@.fits(MAX_NESTING as int),
            text matches Some(t) ==> t@ == json_pretty(self@.canonical(), INDENT),
    {
        render(&self.data)
    }
}

impl Config for JsonConfig {
    /// The document is an object, and every object in it names each of its
    /// fields once.
    open spec fn wf(&self) -> bool {
        self@.wf() && self@ is Object
    }

    open spec fn entry(&self, key: Seq<char>) -> Option<ValueView> {
        value_of(self@.read(split(key)))
    }

    fn get(&self, key: &str) -> (value: Option<Value>) {
        let path = split_path(key);
        node_to_value(self.data.resolve_read(&path))
    }

    /// The document afterwards is the one before with the value's leaf
    /// written at the key's path.
    fn set(&mut self, key: &str, value: Value) -> (save: bool)
        ensures
            final(self)@ == old(self)@.write(split(key@), leaf_of(value@)),
            save == old(self).auto_saves(),
            final(self).auto_saves() == old(self).auto_saves(),
            final(self).file() == old(self).file(),
    {
        let path = split_path(key);
        let leaf = value_to_node(value);
        proof {
            let before = self@;
            let written = split(key@);
            assert(names(path@).subrange(0, path.len() as int) =~= names(path@));
            law_read_after_write(before, written, leaf@);
            assert forall|other: Seq<char>| part_ways(written, split(other)) implies value_of(
                before.write(written, leaf@).read(split(other)),
            ) == value_of(before.read(split(other))) by {
                let i = choose|i: int| #[trigger] part_at(written, split(other), i);
                law_write_frame(before, written, leaf@, split(other), i);
            }
        }
        self.data.resolve_write(&path, 0, leaf);
        self.auto_save
    }

    /// The document afterwards is the one before with the key's path
    /// erased. Where nothing was read at the path, every key gives the
    /// value that it gave before; where the path's parent was there, the
    /// document is then as it was.
    fn delete(&mut self, key: &str) -> (save: bool)
        ensures
            final(self)@ == old(self)@.erase(split(key@)),
            old(self)@.read(split(key@)) is None ==> forall|other: Seq<char>| #[trigger]
                final(self).entry(other) == old(self).entry(other),
            old(self)@.read(split(key@)) is None && old(self)@.read(split(key@).drop_last())
                is Some ==> final(self)@ == old(self)@,
            save == old(self).auto_saves(),
            final(self).auto_saves() == old(self).auto_saves(),
            final(self).file() == old(self).file(),
    {
        let path = split_path(key);
        proof {
            let before = self@;
            let erased = split(key@);
            assert(names(path@).subrange(0, path.len() as int) =~= names(path@));
            law_read_after_erase(before, erased);
            assert forall|other: Seq<char>| part_ways(erased, split(other)) implies value_of(
                before.erase(erased).read(split(other)),
            ) == value_of(before.read(split(other))) by {
                let i = choose|i: int| #[trigger] part_at(erased, split(other), i);
                law_erase_frame(before, erased, split(other), i);
            }
            if before.read(erased) is None {
                assert forall|other: Seq<char>|
                    value_of(#[trigger] before.erase(erased).read(split(other))) == value_of(
                        before.read(split(other)),
                    ) by {
                    law_erase_unread(before, erased, split(other));
                }
                if before.read(erased.drop_last()) is Some {
                    law_erase_absent(before, erased);
                }
            }
        }
        self.data.resolve_remove(&path, 0);
        self.auto_save
    }
}

} // verus!
