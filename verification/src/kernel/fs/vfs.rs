//! The descriptor table of the kernel: which file each descriptor number stands for, and
//! where in it the next transfer goes.
//!
//! Descriptor 0 is the console and descriptor `u32::MAX` a barrier that refuses every
//! transfer. Files opened later get the highest free number below the first gap in the table.
//! A transfer does not move bytes itself: it names the console or the file range that the
//! caller then reads or writes.
use std::collections::BTreeMap;
use vstd::prelude::*;
use crate::stdlib::error::Error;
use super::keys::sorted_keys;

verus! {

broadcast use {vstd::std_specs::btree::group_btree_axioms, vstd::laws_cmp::group_laws_cmp};

/// An open file: its name and the offset of the next transfer.
#[derive(Debug, Clone, Copy)]
pub struct Fd {
    pub name: [u8; 56],
    pub offset: u32,
}

impl Fd {
    pub fn new(name: [u8; 56], offset: u32) -> (fd: Fd)
        ensures
            fd.name == name,
            fd.offset == offset,
    {
        Fd { name, offset }
    }
}

/// The console.
#[derive(Debug, Clone, Copy)]
pub struct Stdio;

/// The descriptor that refuses every transfer.
#[derive(Debug, Clone, Copy)]
pub struct Barrier;

/// What a descriptor number stands for.
#[derive(Debug, Clone, Copy)]
pub enum Descriptor {
    File(Fd),
    Stdio(Stdio),
    Barrier(Barrier),
}

/// Where a read or write goes.
#[derive(Debug, Clone, Copy)]
pub enum Transfer {
    /// The console.
    Console,
    /// Bytes `start..end` of the named file.
    File { name: [u8; 56], start: u32, end: u32 },
}

/// `fd` is the number that `open` picks for a table with these descriptor numbers: the first
/// gap above the lowest number ends just below `fd + 1`.
pub open spec fn is_next_fd(dom: Set<u32>, fd: u32) -> bool {
    &&& fd < u32::MAX
    &&& !dom.contains(fd)
    &&& dom.contains((fd + 1) as u32)
    &&& exists|k: u32| #[trigger] dom.contains(k) && k < fd
    &&& forall|c: u32|
        #![trigger dom.contains(c)]
        dom.contains(c) && c <= fd && (exists|k: u32| #[trigger] dom.contains(k) && k < c) ==> dom.contains(
            (c - 1) as u32,
        )
}

/// What a transfer of `n` bytes on `fd` answers, and the descriptor afterwards.
pub open spec fn transfer_result(m: Map<u32, Descriptor>, fd: u32, n: u32) -> Result<Transfer, Error> {
    if !m.contains_key(fd) {
        Err(Error::NoSuchFd)
    } else {
        match m[fd] {
            Descriptor::File(f) => Ok(
                Transfer::File { name: f.name, start: f.offset, end: (f.offset + n) as u32 },
            ),
            Descriptor::Stdio(_) => Ok(Transfer::Console),
            Descriptor::Barrier(_) => Err(Error::Barrier),
        }
    }
}

/// The table after a transfer of `n` bytes on `fd`: a file's offset moves past them.
pub open spec fn after_transfer(m: Map<u32, Descriptor>, fd: u32, n: u32) -> Map<u32, Descriptor> {
    if m.contains_key(fd) {
        match m[fd] {
            Descriptor::File(f) => m.insert(
                fd,
                Descriptor::File(Fd { name: f.name, offset: (f.offset + n) as u32 }),
            ),
            _ => m,
        }
    } else {
        m
    }
}

/// A transfer of `n` bytes on `fd` does not move a file offset past `u32::MAX`.
pub open spec fn transfer_ok(m: Map<u32, Descriptor>, fd: u32, n: u32) -> bool {
    m.contains_key(fd) ==> match m[fd] {
        Descriptor::File(f) => f.offset + n <= u32::MAX,
        _ => true,
    }
}

/// `fd` stands for the console, which cannot be read from.
pub open spec fn is_console(m: Map<u32, Descriptor>, fd: u32) -> bool {
    m.contains_key(fd) && m[fd] is Stdio
}

/// The table after seeking `fd` to `offset`.
pub open spec fn after_seek(m: Map<u32, Descriptor>, fd: u32, offset: u32) -> Map<u32, Descriptor> {
    if m.contains_key(fd) {
        match m[fd] {
            Descriptor::File(f) => m.insert(fd, Descriptor::File(Fd { name: f.name, offset })),
            _ => m,
        }
    } else {
        m
    }
}

/// `open` picks one number: at most one satisfies `is_next_fd`, and it is free.
pub proof fn lemma_next_fd_unique(dom: Set<u32>, a: u32, b: u32)
    requires
        is_next_fd(dom, a),
        is_next_fd(dom, b),
    ensures
        a == b,
        !dom.contains(a),
{
    if a < b {
        let up = (a + 1) as u32;
        let k = choose|k: u32| #[trigger] dom.contains(k) && k < a;
        assert(dom.contains(k) && k < up);
        assert(dom.contains(up) && up <= b);
        assert(dom.contains((up - 1) as u32));
    } else if b < a {
        let up = (b + 1) as u32;
        let k = choose|k: u32| #[trigger] dom.contains(k) && k < b;
        assert(dom.contains(k) && k < up);
        assert(dom.contains(up) && up <= a);
        assert(dom.contains((up - 1) as u32));
    }
}

/// After seeking a file to `offset`, the next transfer of `n` bytes covers `offset..offset + n`
/// and leaves the offset at its end.
pub proof fn lemma_seek_then_transfer(m: Map<u32, Descriptor>, fd: u32, offset: u32, n: u32)
    requires
        m.contains_key(fd),
        m[fd] is File,
        offset + n <= u32::MAX,
    ensures
        transfer_result(after_seek(m, fd, offset), fd, n) == Ok::<Transfer, Error>(
            Transfer::File { name: m[fd]->File_0.name, start: offset, end: (offset + n) as u32 },
        ),
        after_transfer(after_seek(m, fd, offset), fd, n) == m.insert(
            fd,
            Descriptor::File(Fd { name: m[fd]->File_0.name, offset: (offset + n) as u32 }),
        ),
{
    let f = m[fd]->File_0;
    assert(after_seek(m, fd, offset) == m.insert(fd, Descriptor::File(Fd { name: f.name, offset })));
    assert(after_transfer(after_seek(m, fd, offset), fd, n) =~= m.insert(
        fd,
        Descriptor::File(Fd { name: f.name, offset: (offset + n) as u32 }),
    ));
}

/// A transfer of `n` bytes on a file descriptor covers the `n` bytes from its offset and moves
/// the offset past them; on the console it goes to the console and changes nothing; the
/// barrier and unknown numbers refuse it and change nothing.
pub proof fn lemma_transfer_cases(m: Map<u32, Descriptor>, fd: u32, n: u32)
    ensures
        !m.contains_key(fd) ==> transfer_result(m, fd, n) == Err::<Transfer, Error>(Error::NoSuchFd)
            && after_transfer(m, fd, n) == m,
        m.contains_key(fd) ==> match m[fd] {
            Descriptor::File(f) => {
                &&& transfer_result(m, fd, n) == Ok::<Transfer, Error>(
                    Transfer::File { name: f.name, start: f.offset, end: (f.offset + n) as u32 },
                )
                &&& f.offset + n <= u32::MAX ==> after_transfer(m, fd, n)[fd] == Descriptor::File(
                    Fd { name: f.name, offset: (f.offset + n) as u32 },
                )
                &&& forall|other: u32| other != fd ==> #[trigger] after_transfer(m, fd, n).contains_key(other)
                    == m.contains_key(other) && (m.contains_key(other) ==> after_transfer(m, fd, n)[other]
                    == m[other])
            },
            Descriptor::Stdio(_) => transfer_result(m, fd, n) == Ok::<Transfer, Error>(Transfer::Console)
                && after_transfer(m, fd, n) == m,
            Descriptor::Barrier(_) => transfer_result(m, fd, n) == Err::<Transfer, Error>(Error::Barrier)
                && after_transfer(m, fd, n) == m,
        },
{
}

/// The descriptor table.
pub struct Vfs {
    descriptors: BTreeMap<u32, Descriptor>,
}

impl View for Vfs {
    type V = Map<u32, Descriptor>;

    closed spec fn view(&self) -> Map<u32, Descriptor> {
        self.descriptors@
    }
}

impl Vfs {
    /// A table holding the console at 0 and the barrier at `u32::MAX`.
    pub fn new() -> (v: Vfs)
        ensures
            v@ == Map::<u32, Descriptor>::empty().insert(0, Descriptor::Stdio(Stdio)).insert(
                u32::MAX,
                Descriptor::Barrier(Barrier),
            ),
    {
        let mut descriptors: BTreeMap<u32, Descriptor> = BTreeMap::new();
        descriptors.insert(0, Descriptor::Stdio(Stdio));
        descriptors.insert(u32::MAX, Descriptor::Barrier(Barrier));
        Vfs { descriptors }
    }

    /// Opens `name` at offset 0 under the number `is_next_fd` picks; fails with `OutOfFd` when
    /// the numbers in use leave no gap.
    pub fn open(&mut self, name: [u8; 56]) -> (r: Result<u32, Error>)
        ensures
            match r {
                Ok(fd) => {
                    &&& is_next_fd(old(self)@.dom(), fd)
                    &&& final(self)@ == old(self)@.insert(fd, Descriptor::File(Fd { name, offset: 0 }))
                },
                Err(e) => {
                    &&& e == Error::OutOfFd
                    &&& forall|fd: u32| !#[trigger] is_next_fd(old(self)@.dom(), fd)
                    &&& final(self)@ == old(self)@
                },
            },
    {
        let ks = sorted_keys(&self.descriptors);
        let ghost dom = self@.dom();
        let mut i: usize = 0;
        while i < ks.len() && i + 1 < ks.len()
            invariant
                ks@.to_set() == dom,
                dom == self@.dom(),
                self@ == old(self)@,
                ks@.no_duplicates(),
                forall|a: int, b: int| 0 <= a < b < ks@.len() ==> ks@[a] < ks@[b],
                i + 1 <= ks@.len() || ks@.len() == 0,
                forall|j: int| 0 <= j < i ==> #[trigger] ks@[j] + 1 == ks@[j + 1],
            decreases ks@.len() - i,
        {
            assert(ks@[i as int] < ks@[i + 1]);
            if ks[i] + 1 != ks[i + 1] {
                let fd = ks[i + 1] - 1;
                proof {
                    self.lemma_gap(ks@, i as int, fd);
                }
                self.descriptors.insert(fd, Descriptor::File(Fd::new(name, 0)));
                return Ok(fd);
            }
            i = i + 1;
        }
        proof {
            assert forall|fd: u32| !#[trigger] is_next_fd(dom, fd) by {
                if is_next_fd(dom, fd) {
                    let up = (fd + 1) as u32;
                    assert(ks@.to_set().contains(up));
                    let j = ks@.index_of(up);
                    let k = choose|k: u32| #[trigger] dom.contains(k) && k < fd;
                    assert(ks@.to_set().contains(k));
                    let jk = ks@.index_of(k);
                    if j == 0 {
                        assert(ks@[jk] < ks@[0]);
                        assert(false);
                    }
                    assert(ks@[j - 1] + 1 == ks@[j]);
                    assert(ks@.to_set().contains(ks@[j - 1]));
                }
            }
        }
        Err(Error::OutOfFd)
    }

    proof fn lemma_gap(&self, ks: Seq<u32>, i: int, fd: u32)
        requires
            ks.to_set() == self@.dom(),
            forall|a: int, b: int| 0 <= a < b < ks.len() ==> ks[a] < ks[b],
            0 <= i,
            i + 1 < ks.len(),
            forall|j: int| 0 <= j < i ==> #[trigger] ks[j] + 1 == ks[j + 1],
            ks[i] + 1 != ks[i + 1],
            fd == ks[i + 1] - 1,
        ensures
            is_next_fd(self@.dom(), fd),
    {
        let dom = self@.dom();
        assert(ks.to_set().contains(ks[i + 1]));
        assert(ks.to_set().contains(ks[i]));
        assert(ks[i] < fd);
        assert(!dom.contains(fd)) by {
            if dom.contains(fd) {
                let j = ks.index_of(fd);
                if j <= i {
                    assert(ks[j] <= ks[i]) by {
                        if j < i {
                            assert(ks[j] < ks[i]);
                        }
                    }
                } else {
                    assert(ks[j] >= ks[i + 1]) by {
                        if j > i + 1 {
                            assert(ks[i + 1] < ks[j]);
                        }
                    }
                }
            }
        }
        assert forall|c: u32|
            #![trigger dom.contains(c)]
            dom.contains(c) && c <= fd && (exists|k: u32| #[trigger] dom.contains(k) && k < c) implies dom.contains(
                (c - 1) as u32,
            ) by {
            let j = ks.index_of(c);
            let k = choose|k: u32| #[trigger] dom.contains(k) && k < c;
            let jk = ks.index_of(k);
            if j == 0 {
                assert(ks[jk] < ks[0]);
                assert(false);
            }
            if j > i {
                assert(ks[j] >= ks[i + 1]) by {
                    if j > i + 1 {
                        assert(ks[i + 1] < ks[j]);
                    }
                }
                assert(false);
            }
            assert(ks[j - 1] + 1 == ks[j]) by {
                if j - 1 < i {
                    assert(ks[(j - 1)] + 1 == ks[(j - 1) + 1]);
                } else {
                    assert(j == i);
                    assert(ks[i - 1] + 1 == ks[(i - 1) + 1]);
                }
            }
            assert(ks.to_set().contains(ks[j - 1]));
        }
    }

    /// Moves a file's offset to `offset`; the console and the barrier ignore it. Fails with
    /// `NoSuchFd` for an unknown number.
    pub fn seek(&mut self, fd: u32, offset: u32) -> (r: Result<(), Error>)
        ensures
            r == (if old(self)@.contains_key(fd) {
                Ok::<(), Error>(())
            } else {
                Err(Error::NoSuchFd)
            }),
            final(self)@ == after_seek(old(self)@, fd, offset),
    {
        match self.descriptors.get(&fd) {
            Some(d) => {
                let d = *d;
                match d {
                    Descriptor::File(f) => {
                        self.descriptors.insert(fd, Descriptor::File(Fd::new(f.name, offset)));
                    },
                    _ => {},
                }
                Ok(())
            },
            None => Err(Error::NoSuchFd),
        }
    }

    /// A transfer of `n` bytes on `fd` keeps a file's offset within `u32::MAX`.
    pub fn can_transfer(&self, fd: u32, n: u32) -> (r: bool)
        ensures
            r == transfer_ok(self@, fd, n),
    {
        match self.descriptors.get(&fd) {
            Some(d) => match *d {
                Descriptor::File(f) => f.offset <= u32::MAX - n,
                _ => true,
            },
            None => true,
        }
    }

    fn transfer(&mut self, fd: u32, n: u32) -> (r: Result<Transfer, Error>)
        requires
            transfer_ok(old(self)@, fd, n),
        ensures
            r == transfer_result(old(self)@, fd, n),
            final(self)@ == after_transfer(old(self)@, fd, n),
    {
        match self.descriptors.get(&fd) {
            Some(d) => {
                let d = *d;
                match d {
                    Descriptor::File(f) => {
                        let end = f.offset + n;
                        self.descriptors.insert(fd, Descriptor::File(Fd::new(f.name, end)));
                        Ok(Transfer::File { name: f.name, start: f.offset, end })
                    },
                    Descriptor::Stdio(_) => Ok(Transfer::Console),
                    Descriptor::Barrier(_) => Err(Error::Barrier),
                }
            },
            None => Err(Error::NoSuchFd),
        }
    }

    /// `fd` stands for the console.
    pub fn reads_console(&self, fd: u32) -> (r: bool)
        ensures
            r == is_console(self@, fd),
    {
        match self.descriptors.get(&fd) {
            Some(d) => match *d {
                Descriptor::Stdio(_) => true,
                _ => false,
            },
            None => false,
        }
    }

    /// Reads `bytes` bytes from `fd`: a file's range starts at its offset, which moves past it.
    /// Reading from the console is not supported and is not offered.
    pub fn read(&mut self, fd: u32, bytes: u32) -> (r: Result<Transfer, Error>)
        requires
            !is_console(old(self)@, fd),
            transfer_ok(old(self)@, fd, bytes),
        ensures
            r == transfer_result(old(self)@, fd, bytes),
            final(self)@ == after_transfer(old(self)@, fd, bytes),
    {
        self.transfer(fd, bytes)
    }

    /// Writes `bytes` to `fd`: a file's range starts at its offset, which moves past it.
    pub fn write(&mut self, fd: u32, bytes: &[u8]) -> (r: Result<Transfer, Error>)
        requires
            transfer_ok(old(self)@, fd, bytes@.len() as u32),
        ensures
            r == transfer_result(old(self)@, fd, bytes@.len() as u32),
            final(self)@ == after_transfer(old(self)@, fd, bytes@.len() as u32),
    {
        let n = bytes.len() as u32;
        self.transfer(fd, n)
    }
}

} // verus!
