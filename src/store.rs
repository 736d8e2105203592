//! The store: keys map to files of one directory; values pass through a codec.
//!
//! The filesystem calls themselves are made by the caller. The functions here
//! compute everything around them: the file a key names, the bytes to write for
//! a value, the value that bytes read back stand for, and the order in which a
//! bulk operation stops at its first failure.
use vstd::prelude::*;
use vstd::string::*;

use crate::codec::EncodeDecode;

verus! {

#[verifier::external_type_specification]
#[verifier::external_body]
pub struct ExIoError(std::io::Error);

/// A failure of a store operation: of the filesystem, or of the codec.
#[derive(Debug)]
pub enum StoreError<E> {
    Io(std::io::Error),
    Inner(E),
}

impl<E> From<std::io::Error> for StoreError<E> {
    fn from(e: std::io::Error) -> (r: Self) {
        StoreError::Io(e)
    }
}

impl<E> vstd::std_specs::convert::FromSpecImpl<std::io::Error> for StoreError<E> {
    open spec fn obeys_from_spec() -> bool {
        true
    }

    open spec fn from_spec(e: std::io::Error) -> Self {
        StoreError::Io(e)
    }
}

/// The path of the file for `key` in directory `dir`: `key` appended as one
/// more component, with a `/` between the two where `dir` lacks one.
pub open spec fn joined(dir: Seq<char>, key: Seq<char>) -> Seq<char> {
    if dir.len() == 0 || dir.last() == '/' {
        dir + key
    } else {
        dir + seq!['/'] + key
    }
}

/// Whether the bytes of every entry decode.
pub open spec fn all_decode<V: EncodeDecode>(entries: Seq<(String, Vec<u8>)>) -> bool {
    forall|i: int| 0 <= i < entries.len() ==> V::decoded(#[trigger] entries[i].1@) is Some
}

/// A simple key:value store over the files of one directory.
pub struct FileStore<V> {
    dir: String,
    _v: core::marker::PhantomData<V>,
}

impl<V> View for FileStore<V> {
    type V = Seq<char>;

    /// The directory that the store's files live in.
    closed spec fn view(&self) -> Seq<char> {
        self.dir@
    }
}

impl<V, E> FileStore<V> where V: EncodeDecode<Value = V, Error = E> {
    /// A store over directory `dir`. The directory is not touched: it must
    /// exist by the time the files are used.
    pub fn new(dir: &str) -> (r: Result<Self, StoreError<E>>)
        ensures
            r is Ok,
            r->Ok_0@ == dir@,
    {
        Ok(FileStore { dir: String::from_str(dir), _v: core::marker::PhantomData })
    }

    /// The directory of the store.
    pub fn dir(&self) -> (r: &str)
        ensures
            r@ == self@,
    {
        self.dir.as_str()
    }

    /// The path of the file that holds the value of `name`.
    pub fn entry_path(&self, name: &str) -> (r: String)
        ensures
            r@ == joined(self@, name@),
    {
        let mut path = self.dir.clone();
        let d = path.as_str().unicode_len();
        if d > 0 && path.as_str().get_char(d - 1) != '/' {
            path.append("/");
        }
        path.append(name);
        proof {
            reveal_strlit("/");
            if !(self@.len() == 0 || self@.last() == '/') {
                assert(path@ == self@ + seq!['/'] + name@);
            }
        }
        path
    }

    /// The value that the file of a key stands for, given what reading that
    /// file gave: a failed read is an I/O failure, bytes that do not decode are
    /// a codec failure, anything else is the decoded value.
    pub fn load(&self, read: Result<Vec<u8>, std::io::Error>) -> (r: Result<V, StoreError<E>>)
        ensures
            read is Err ==> r is Err && r->Err_0 is Io && r->Err_0->Io_0 == read->Err_0,
            read is Ok ==> (r is Ok <==> V::decoded(read->Ok_0@) is Some),
            read is Ok && r is Ok ==> V::decoded(read->Ok_0@) == Some(r->Ok_0),
            read is Ok && r is Err ==> r->Err_0 is Inner,
    {
        match read {
            Err(e) => Err(StoreError::Io(e)),
            Ok(buff) => match V::decode(buff.as_slice()) {
                Ok(v) => Ok(v),
                Err(e) => Err(StoreError::Inner(e)),
            },
        }
    }

    /// What storing `v` under `name` writes: the file's path and its whole new
    /// contents. A value that does not encode is a codec failure, reported
    /// before anything is written.
    pub fn store(&self, name: &str, v: &V) -> (r: Result<(String, Vec<u8>), StoreError<E>>)
        ensures
            r is Ok <==> V::encoded(*v) is Some,
            r is Ok ==> r->Ok_0.0@ == joined(self@, name@),
            r is Ok ==> V::encoded(*v) == Some(r->Ok_0.1@),
            r is Err ==> r->Err_0 is Inner,
    {
        match V::encode(v) {
            Ok(bin) => Ok((self.entry_path(name), bin)),
            Err(e) => Err(StoreError::Inner(e)),
        }
    }

    /// The writes that storing every pair of `data` makes, in order, and the
    /// failure to report once they are done.
    ///
    /// The pairs are stored in turn and the first one that does not encode
    /// stops the work: the writes are those of the pairs before it, and the
    /// failure is its codec error. When every pair encodes there is one write
    /// per pair and no failure. A failed write stops the rest as well; the
    /// caller reports it in place of what follows.
    pub fn store_all(&self, data: &[(String, V)]) -> (r: (Vec<(String, Vec<u8>)>, Option<StoreError<E>>))
        ensures
            r.0@.len() <= data@.len(),
            forall|i: int| 0 <= i < r.0@.len() ==> (#[trigger] r.0@[i]).0@ == joined(self@, data@[i].0@),
            forall|i: int| 0 <= i < r.0@.len() ==> V::encoded(data@[i].1) == Some((#[trigger] r.0@[i]).1@),
            r.1 is None <==> r.0@.len() == data@.len(),
            r.1 is Some ==> V::encoded(data@[r.0@.len() as int].1) is None,
            r.1 is Some ==> r.1->0 is Inner,
    {
        let mut writes: Vec<(String, Vec<u8>)> = Vec::new();
        let mut i: usize = 0;
        while i < data.len()
            invariant
                i <= data@.len(),
                writes@.len() == i,
                forall|j: int| 0 <= j < i ==> (#[trigger] writes@[j]).0@ == joined(self@, data@[j].0@),
                forall|j: int| 0 <= j < i ==> V::encoded(data@[j].1) == Some((#[trigger] writes@[j]).1@),
            decreases data@.len() - i,
        {
            let (name, value) = &data[i];
            match self.store(name.as_str(), value) {
                Ok(w) => writes.push(w),
                Err(e) => return (writes, Some(e)),
            }
            i = i + 1;
        }
        (writes, None)
    }

    /// Every entry of the store with its value, given the entries that were
    /// read, in listing order, and the I/O failure, if any, that stopped the
    /// listing or the reading right after them.
    ///
    /// The first entry whose bytes do not decode fails the whole call with a
    /// codec failure; otherwise an I/O failure fails it; otherwise every entry
    /// comes back with its decoded value, in the same order. No partial
    /// result is returned.
    pub fn load_all(&self, entries: &[(String, Vec<u8>)], stopped: Option<std::io::Error>) -> (r: Result<Vec<(String, V)>, StoreError<E>>)
        ensures
            r is Ok <==> all_decode::<V>(entries@) && stopped is None,
            r is Ok ==> r->Ok_0@.len() == entries@.len(),
            r is Ok ==> forall|i: int| 0 <= i < entries@.len() ==> (#[trigger] r->Ok_0@[i]).0@ == entries@[i].0@,
            r is Ok ==> forall|i: int| 0 <= i < entries@.len() ==> V::decoded(entries@[i].1@) == Some((#[trigger] r->Ok_0@[i]).1),
            !all_decode::<V>(entries@) ==> r is Err && r->Err_0 is Inner,
            all_decode::<V>(entries@) && stopped is Some ==> r is Err && r->Err_0 is Io && r->Err_0->Io_0 == stopped->0,
    {
        let mut objs: Vec<(String, V)> = Vec::new();
        let mut i: usize = 0;
        while i < entries.len()
            invariant
                i <= entries@.len(),
                objs@.len() == i,
                forall|j: int| 0 <= j < i ==> V::decoded(#[trigger] entries@[j].1@) is Some,
                forall|j: int| 0 <= j < i ==> (#[trigger] objs@[j]).0@ == entries@[j].0@,
                forall|j: int| 0 <= j < i ==> V::decoded(entries@[j].1@) == Some((#[trigger] objs@[j]).1),
            decreases entries@.len() - i,
        {
            let (name, buff) = &entries[i];
            match V::decode(buff.as_slice()) {
                Ok(v) => objs.push((name.clone(), v)),
                Err(e) => return Err(StoreError::Inner(e)),
            }
            i = i + 1;
        }
        match stopped {
            Some(e) => Err(StoreError::Io(e)),
            None => Ok(objs),
        }
    }
}

} // verus!
