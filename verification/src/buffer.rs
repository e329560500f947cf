//! Cursor-based random access over a byte image.
//!
//! A `BufferManager` models one file as a growable byte image plus a
//! table of named cursors, so callers can interleave independent read
//! and write sessions.  Little-endian primitives sit on top of plain
//! byte reads and writes.  A `BufferManagerFactory` maps a version
//! number to the buffer manager of that version's file.

use vstd::prelude::*;

use crate::bytes::spec_u32_from_le;
use crate::bytes::spec_u32_to_le;
use crate::bytes::u32_from_le_bytes;
use crate::bytes::u32_to_le_bytes;

verus! {

/// I/O failures a buffer operation can surface: an underlying I/O
/// fault, a poisoned lock, or a read past the end of the image.
#[derive(Debug, Clone, PartialEq, Eq)]
pub enum BufIoError {
    Io,
    Locking,
    Eof,
}

/// Where a seek starts from: the image's start, its end, or the
/// cursor's current position.
#[derive(Debug, Clone, Copy)]
pub enum SeekPos {
    Start(usize),
    End(i64),
    Current(i64),
}

/// The byte image after writing `bytes` at position `pos`: bytes in
/// the written range are replaced, the image grows if the write ends
/// past its end, and any gap between the old end and `pos` is
/// zero-filled.
pub open spec fn store_write(data: Seq<u8>, pos: int, bytes: Seq<u8>) -> Seq<u8> {
    let end = if bytes.len() == 0 || data.len() >= pos + bytes.len() {
        data.len() as int
    } else {
        pos + bytes.len()
    };
    Seq::new(
        end as nat,
        |i: int|
            if pos <= i < pos + bytes.len() {
                bytes[i - pos]
            } else if i < data.len() {
                data[i]
            } else {
                0u8
            },
    )
}

/// One file image with its open cursors.  A closed cursor's slot is
/// kept as `None` so cursor ids are never reused.
pub struct BufferManager {
    data: Vec<u8>,
    cursors: Vec<Option<usize>>,
}

impl View for BufferManager {
    type V = Seq<u8>;

    closed spec fn view(&self) -> Seq<u8> {
        self.data@
    }
}

impl BufferManager {
    /// The table of cursor positions, `None` for closed slots.
    pub closed spec fn spec_cursors(&self) -> Seq<Option<usize>> {
        self.cursors@
    }

    /// Cursor `c` is open.
    pub open spec fn cursor_ok(&self, c: usize) -> bool {
        c < self.spec_cursors().len() && self.spec_cursors()[c as int] is Some
    }

    /// The position of open cursor `c`.
    pub open spec fn cursor_at(&self, c: usize) -> int
        recommends
            self.cursor_ok(c),
    {
        self.spec_cursors()[c as int]->0 as int
    }

    /// An empty image with no cursors.
    pub fn new() -> (r: Self)
        ensures
            r@ =~= Seq::<u8>::empty(),
            r.spec_cursors() =~= Seq::<Option<usize>>::empty(),
    {
        BufferManager { data: Vec::new(), cursors: Vec::new() }
    }

    /// A copy of the whole image, for a caller that moves it in or
    /// out of some outside store.
    pub fn image_bytes(&self) -> (r: Vec<u8>)
        ensures
            r@ == self@,
    {
        let mut out: Vec<u8> = Vec::new();
        let mut i: usize = 0;
        while i < self.data.len()
            invariant
                i <= self.data@.len(),
                out@ == self.data@.take(i as int),
            decreases self.data@.len() - i,
        {
            out.push(self.data[i]);
            proof {
                assert(out@ =~= self.data@.take(i + 1));
            }
            i = i + 1;
        }
        proof {
            assert(self.data@.take(self.data@.len() as int) =~= self.data@);
        }
        out
    }

    /// An image holding the given bytes, with no cursors.
    pub fn with_data(data: Vec<u8>) -> (r: Self)
        ensures
            r@ == data@,
            r.spec_cursors() =~= Seq::<Option<usize>>::empty(),
    {
        BufferManager { data, cursors: Vec::new() }
    }

    /// The whole image as bytes.
    pub fn to_bytes(&self) -> (r: Vec<u8>)
        ensures
            r@ == self@,
    {
        let mut r: Vec<u8> = Vec::new();
        let mut i: usize = 0;
        while i < self.data.len()
            invariant
                i <= self.data.len(),
                r@ =~= self.data@.take(i as int),
            decreases self.data.len() - i,
        {
            r.push(self.data[i]);
            i = i + 1;
        }
        proof {
            assert(r@ =~= self.data@);
        }
        r
    }

    /// The image's length in bytes.
    pub fn len(&self) -> (r: usize)
        ensures
            r == self@.len(),
    {
        self.data.len()
    }

    /// Opens a fresh cursor at position 0 and returns its id.
    pub fn open_cursor(&mut self) -> (c: usize)
        ensures
            c == old(self).spec_cursors().len(),
            final(self)@ == old(self)@,
            final(self).spec_cursors() =~= old(self).spec_cursors().push(Some(0usize)),
            final(self).cursor_ok(c),
            final(self).cursor_at(c) == 0,
    {
        let c = self.cursors.len();
        self.cursors.push(Some(0));
        c
    }

    /// Closes cursor `c`; its id is not reused.
    pub fn close_cursor(&mut self, c: usize) -> (r: Result<(), BufIoError>)
        ensures
            final(self)@ == old(self)@,
            old(self).cursor_ok(c) ==> r is Ok && final(self).spec_cursors() =~= old(self).spec_cursors().update(c as int, None),
            !old(self).cursor_ok(c) ==> r == Result::<(), BufIoError>::Err(BufIoError::Locking)
                && final(self).spec_cursors() == old(self).spec_cursors(),
    {
        if c < self.cursors.len() && self.cursors[c].is_some() {
            self.cursors.set(c, None);
            Ok(())
        } else {
            Err(BufIoError::Locking)
        }
    }

    /// The current position of cursor `c`.
    pub fn cursor_position(&self, c: usize) -> (r: Result<usize, BufIoError>)
        ensures
            self.cursor_ok(c) ==> r == Result::<usize, BufIoError>::Ok(
                self.cursor_at(c) as usize,
            ),
            !self.cursor_ok(c) ==> r == Result::<usize, BufIoError>::Err(BufIoError::Locking),
    {
        if c < self.cursors.len() {
            match self.cursors[c] {
                Some(p) => Ok(p),
                None => Err(BufIoError::Locking),
            }
        } else {
            Err(BufIoError::Locking)
        }
    }

    /// Moves cursor `c`.  Seeking from the end or the current position
    /// fails with `Io` if the target falls before the image's start or
    /// past `usize::MAX`; the image itself never changes.
    pub fn seek_with_cursor(&mut self, c: usize, pos: SeekPos) -> (r: Result<usize, BufIoError>)
        requires
            old(self).cursor_ok(c),
        ensures
            final(self)@ == old(self)@,
            r is Ok ==> final(self).spec_cursors() =~= old(self).spec_cursors().update(
                c as int,
                Some(r->Ok_0),
            ),
            r is Err ==> final(self).spec_cursors() == old(self).spec_cursors(),
            match pos {
                SeekPos::Start(p) => r == Result::<usize, BufIoError>::Ok(p),
                SeekPos::End(off) => (0 <= old(self)@.len() + off <= usize::MAX) == (r is Ok) && (r
                    is Ok ==> r->Ok_0 == old(self)@.len() + off),
                SeekPos::Current(off) => (0 <= old(self).cursor_at(c) + off <= usize::MAX) == (r
                    is Ok) && (r is Ok ==> r->Ok_0 == old(self).cursor_at(c) + off),
            },
    {
        let target: Result<usize, BufIoError> = match pos {
            SeekPos::Start(p) => Ok(p),
            SeekPos::End(off) => {
                let len = self.data.len() as i128;
                let t = len + (off as i128);
                if 0 <= t && t <= (usize::MAX as i128) {
                    Ok(t as usize)
                } else {
                    Err(BufIoError::Io)
                }
            },
            SeekPos::Current(off) => {
                let cur = match self.cursors[c] {
                    Some(p) => p,
                    None => 0,
                };
                let t = (cur as i128) + (off as i128);
                if 0 <= t && t <= (usize::MAX as i128) {
                    Ok(t as usize)
                } else {
                    Err(BufIoError::Io)
                }
            },
        };
        match target {
            Ok(t) => {
                self.cursors.set(c, Some(t));
                Ok(t)
            },
            Err(e) => Err(e),
        }
    }

    /// Writes one byte at `pos`, zero-filling any gap before it.
    fn write_u8_at(&mut self, pos: usize, b: u8)
        ensures
            final(self).data@ =~= store_write(old(self).data@, pos as int, seq![b]),
            final(self).spec_cursors() == old(self).spec_cursors(),
    {
        while self.data.len() < pos
            invariant
                self.spec_cursors() == old(self).spec_cursors(),
                self.data@.len() >= old(self).data@.len(),
                self.data@.take(old(self).data@.len() as int) =~= old(self).data@,
                forall|i: int|
                    old(self).data@.len() <= i < self.data@.len() ==> self.data@[i] == 0u8,
                self.data@.len() <= pos || self.data@ == old(self).data@,
            decreases pos - self.data.len(),
        {
            self.data.push(0);
        }
        if pos < self.data.len() {
            self.data.set(pos, b);
        } else {
            self.data.push(b);
        }
    }

    /// Writes `bytes` at the cursor and advances it past the written
    /// range.  The image is overwritten in place and grows as needed.
    pub fn write_with_cursor(&mut self, c: usize, bytes: &Vec<u8>) -> (r: Result<
        usize,
        BufIoError,
    >)
        requires
            old(self).cursor_ok(c),
            old(self).cursor_at(c) + bytes@.len() <= usize::MAX,
        ensures
            r == Result::<usize, BufIoError>::Ok(bytes.len()),
            final(self)@ =~= store_write(old(self)@, old(self).cursor_at(c), bytes@),
            final(self).spec_cursors() =~= old(self).spec_cursors().update(
                c as int,
                Some((old(self).cursor_at(c) + bytes@.len()) as usize),
            ),
    {
        let pos = match self.cursors[c] {
            Some(p) => p,
            None => 0,
        };
        let ghost start_data = self.data@;
        let mut i: usize = 0;
        while i < bytes.len()
            invariant
                i <= bytes@.len(),
                pos + bytes@.len() <= usize::MAX,
                i == 0 ==> self.data@ == start_data,
                i > 0 ==> self.data@ =~= store_write(start_data, pos as int, bytes@.take(i as int)),
                self.spec_cursors() == old(self).spec_cursors(),
            decreases bytes@.len() - i,
        {
            let ghost before = self.data@;
            self.write_u8_at(pos + i, bytes[i]);
            proof {
                assert(self.data@ =~= store_write(
                    start_data,
                    pos as int,
                    bytes@.take(i as int + 1),
                ));
            }
            i = i + 1;
        }
        self.cursors.set(c, Some(pos + bytes.len()));
        proof {
            assert(self.data@ =~= store_write(start_data, pos as int, bytes@));
        }
        Ok(bytes.len())
    }

    /// Writes one byte at the cursor.
    pub fn write_u8_with_cursor(&mut self, c: usize, b: u8) -> (r: Result<usize, BufIoError>)
        requires
            old(self).cursor_ok(c),
            old(self).cursor_at(c) + 1 <= usize::MAX,
        ensures
            r == Result::<usize, BufIoError>::Ok(1usize),
            final(self)@ =~= store_write(old(self)@, old(self).cursor_at(c), seq![b]),
            final(self).spec_cursors() =~= old(self).spec_cursors().update(
                c as int,
                Some((old(self).cursor_at(c) + 1) as usize),
            ),
    {
        let mut v: Vec<u8> = Vec::new();
        v.push(b);
        self.write_with_cursor(c, &v)
    }

    /// Writes a `u32` at the cursor, little endian.
    pub fn write_u32_with_cursor(&mut self, c: usize, v: u32) -> (r: Result<usize, BufIoError>)
        requires
            old(self).cursor_ok(c),
            old(self).cursor_at(c) + 4 <= usize::MAX,
        ensures
            r == Result::<usize, BufIoError>::Ok(4usize),
            final(self)@ =~= store_write(old(self)@, old(self).cursor_at(c), spec_u32_to_le(v)),
            final(self).spec_cursors() =~= old(self).spec_cursors().update(
                c as int,
                Some((old(self).cursor_at(c) + 4) as usize),
            ),
    {
        let bytes = u32_to_le_bytes(v);
        self.write_with_cursor(c, &bytes)
    }

    /// Reads `n` bytes at the cursor and advances it; `Eof` when the
    /// range runs past the image's end, leaving the cursor in place.
    pub fn read_with_cursor(&mut self, c: usize, n: usize) -> (r: Result<Vec<u8>, BufIoError>)
        requires
            old(self).cursor_ok(c),
        ensures
            final(self)@ == old(self)@,
            (old(self).cursor_at(c) + n <= old(self)@.len()) == (r is Ok),
            r matches Ok(v) ==> v@ =~= old(self)@.subrange(
                old(self).cursor_at(c),
                old(self).cursor_at(c) + n,
            ) && final(self).spec_cursors() =~= old(self).spec_cursors().update(
                c as int,
                Some((old(self).cursor_at(c) + n) as usize),
            ),
            r is Err ==> r == Result::<Vec<u8>, BufIoError>::Err(BufIoError::Eof) && final(self).spec_cursors() == old(self).spec_cursors(),
    {
        let pos = match self.cursors[c] {
            Some(p) => p,
            None => 0,
        };
        let dlen = self.data.len();
        if pos > dlen || n > dlen - pos {
            return Err(BufIoError::Eof);
        }
        let mut v: Vec<u8> = Vec::new();
        let mut i: usize = 0;
        while i < n
            invariant
                i <= n,
                pos + n <= dlen,
                dlen == self.data@.len(),
                v@ =~= self.data@.subrange(pos as int, pos + i),
                self.spec_cursors() == old(self).spec_cursors(),
                self.data@ == old(self).data@,
            decreases n - i,
        {
            v.push(self.data[pos + i]);
            i = i + 1;
        }
        self.cursors.set(c, Some(pos + n));
        Ok(v)
    }

    /// Reads one byte at the cursor.
    pub fn read_u8_with_cursor(&mut self, c: usize) -> (r: Result<u8, BufIoError>)
        requires
            old(self).cursor_ok(c),
        ensures
            final(self)@ == old(self)@,
            (old(self).cursor_at(c) + 1 <= old(self)@.len()) == (r is Ok),
            r matches Ok(b) ==> b == old(self)@[old(self).cursor_at(c)] && final(self).spec_cursors() =~= old(self).spec_cursors().update(
                c as int,
                Some((old(self).cursor_at(c) + 1) as usize),
            ),
            r is Err ==> r == Result::<u8, BufIoError>::Err(BufIoError::Eof) && final(self).spec_cursors() == old(self).spec_cursors(),
    {
        match self.read_with_cursor(c, 1) {
            Ok(v) => Ok(v[0]),
            Err(e) => Err(e),
        }
    }

    /// Reads a `u32` at the cursor, little endian.
    pub fn read_u32_with_cursor(&mut self, c: usize) -> (r: Result<u32, BufIoError>)
        requires
            old(self).cursor_ok(c),
        ensures
            final(self)@ == old(self)@,
            (old(self).cursor_at(c) + 4 <= old(self)@.len()) == (r is Ok),
            r matches Ok(v) ==> v == spec_u32_from_le(
                old(self)@.subrange(old(self).cursor_at(c), old(self).cursor_at(c) + 4),
            ) && final(self).spec_cursors() =~= old(self).spec_cursors().update(
                c as int,
                Some((old(self).cursor_at(c) + 4) as usize),
            ),
            r is Err ==> r == Result::<u32, BufIoError>::Err(BufIoError::Eof) && final(self).spec_cursors() == old(self).spec_cursors(),
    {
        match self.read_with_cursor(c, 4) {
            Ok(v) => Ok(u32_from_le_bytes(v[0], v[1], v[2], v[3])),
            Err(e) => Err(e),
        }
    }
}

/// Maps a version number to the buffer manager of that version's
/// file, creating an empty image on first use.
pub struct BufferManagerFactory {
    files: Vec<(u32, BufferManager)>,
}

impl BufferManagerFactory {
    /// The versions with an open image, in creation order.
    pub closed spec fn spec_versions(&self) -> Seq<u32> {
        self.files@.map_values(|f: (u32, BufferManager)| f.0)
    }

    /// The image slot for version `v`, if one is open.
    pub closed spec fn spec_index_of(&self, v: u32) -> int {
        choose|i: int| 0 <= i < self.files@.len() && self.files@[i].0 == v
    }

    /// Version `v` has an open image.
    pub open spec fn has_version(&self, v: u32) -> bool {
        self.spec_versions().contains(v)
    }

    /// No version has two image slots.
    pub open spec fn versions_unique(&self) -> bool {
        forall|i: int, j: int|
            0 <= i < j < self.spec_versions().len() ==> self.spec_versions()[i]
                != self.spec_versions()[j]
    }

    /// The length of version `v`'s image; a version with no image yet
    /// counts as empty.
    pub open spec fn version_len(&self, v: u32) -> int {
        if self.has_version(v) {
            self.files_at(self.spec_index_of(v))@.len() as int
        } else {
            0
        }
    }

    /// The image bytes of version `v`.
    pub open spec fn version_data(&self, v: u32) -> Seq<u8>
        recommends
            self.has_version(v),
    {
        self.files_at(self.spec_index_of(v))@
    }

    pub fn new() -> (r: Self)
        ensures
            r.spec_versions() =~= Seq::<u32>::empty(),
    {
        BufferManagerFactory { files: Vec::new() }
    }

    /// The index of version `v`'s image, opening an empty one when the
    /// version is new.
    pub fn get(&mut self, v: u32) -> (i: usize)
        ensures
            final(self).has_version(v),
            old(self).has_version(v) ==> *final(self) == *old(self),
            !old(self).has_version(v) ==> final(self).spec_versions() =~= old(self).spec_versions().push(v) && final(self).files_at(i as int)@ =~= Seq::<u8>::empty() && (forall|j: int|
                0 <= j < old(self).spec_versions().len() ==> final(self).files_at(j) == old(self).files_at(j)),
            i < final(self).spec_versions().len() && final(self).spec_versions()[i as int] == v,
            old(self).versions_unique() ==> final(self).versions_unique(),
    {
        let mut i: usize = 0;
        while i < self.files.len()
            invariant
                i <= self.files@.len(),
                forall|j: int| 0 <= j < i ==> self.files@[j].0 != v,
                *self == *old(self),
            decreases self.files@.len() - i,
        {
            if self.files[i].0 == v {
                proof {
                    assert(self.spec_versions()[i as int] == v);
                }
                return i;
            }
            i = i + 1;
        }
        let i = self.files.len();
        self.files.push((v, BufferManager::new()));
        proof {
            assert(self.spec_versions()[i as int] == v);
        }
        i
    }

    /// Borrows the image at slot `i`.
    pub fn at(&mut self, i: usize) -> (b: &mut BufferManager)
        requires
            i < old(self).spec_versions().len(),
        ensures
            *b == old(self).files_at(i as int),
            final(self).spec_versions() == old(self).spec_versions(),
            final(self).files_at(i as int) == *final(b),
            forall|j: int|
                0 <= j < old(self).spec_versions().len() && j != i ==> final(self).files_at(j)
                    == old(self).files_at(j),
    {
        &mut self.files[i].1
    }

    /// The buffer manager at slot `i`.
    pub closed spec fn files_at(&self, i: int) -> BufferManager {
        self.files@[i].1
    }

    /// With unique versions, a slot holding `v` is the slot of `v`.
    pub proof fn lemma_slot_of(&self, v: u32, i: int)
        requires
            self.versions_unique(),
            0 <= i < self.spec_versions().len(),
            self.spec_versions()[i] == v,
        ensures
            self.spec_index_of(v) == i,
            self.has_version(v),
    {
        assert(self.spec_versions().contains(v));
        assert(exists|j: int| 0 <= j < self.files@.len() && self.files@[j].0 == v) by {
            assert(self.files@[i].0 == v);
        }
        let j = self.spec_index_of(v);
        assert(self.spec_versions()[j] == v);
        if i < j {
            assert(self.spec_versions()[i] != self.spec_versions()[j]);
        } else if j < i {
            assert(self.spec_versions()[j] != self.spec_versions()[i]);
        }
    }
}

} // verus!
