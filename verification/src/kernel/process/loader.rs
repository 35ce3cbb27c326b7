//! The ELF program loader: collects the address ranges of an ELF file's segments and
//! sections and lays out one zeroed memory image spanning all of them.
use core::ops::Range;
use elf::endian::AnyEndian;
use elf::parse::ParseError;
use elf::ElfBytes;
use vstd::prelude::*;

verus! {

#[verifier::external_type_specification]
#[verifier::external_body]
pub struct ExParseError(ParseError);

/// Whether `elf::ElfBytes::minimal_parse` accepts these bytes.
pub uninterp spec fn elf_parses(bytes: Seq<u8>) -> bool;

/// The (virtual address, size in memory) pairs of the program headers that
/// `elf::ElfBytes::segments` yields for these bytes; none when there is no segment table.
pub uninterp spec fn elf_segment_headers(bytes: Seq<u8>) -> Option<Seq<(u64, u64)>>;

/// The (address, size) pairs of the section headers that `elf::ElfBytes::section_headers`
/// yields for these bytes; none when there is no section table.
pub uninterp spec fn elf_section_headers(bytes: Seq<u8>) -> Option<Seq<(u64, u64)>>;

/// The view of an optional table.
pub open spec fn table_view(t: Option<Vec<(u64, u64)>>) -> Option<Seq<(u64, u64)>> {
    match t {
        Some(v) => Some(v@),
        None => None,
    }
}

/// `elf::ElfBytes::minimal_parse` followed by `elf::ElfBytes::segments`: the segment headers
/// of an ELF file. Stated: parsing fails exactly where `elf_parses` says, and the headers are
/// those that `elf_segment_headers` names.
#[verifier::external_body]
fn elf_segments(bytes: &[u8]) -> (r: Result<Option<Vec<(u64, u64)>>, ParseError>)
    ensures
        r is Ok == elf_parses(bytes@),
        r matches Ok(t) ==> table_view(t) == elf_segment_headers(bytes@),
{
    let elf = ElfBytes::<AnyEndian>::minimal_parse(bytes)?;
    Ok(elf.segments().map(|table| table.iter().map(|h| (h.p_vaddr, h.p_memsz)).collect()))
}

/// `elf::ElfBytes::minimal_parse` followed by `elf::ElfBytes::section_headers`: the section
/// headers of an ELF file. Stated: parsing fails exactly where `elf_parses` says, and the
/// headers are those that `elf_section_headers` names.
#[verifier::external_body]
fn elf_sections(bytes: &[u8]) -> (r: Result<Option<Vec<(u64, u64)>>, ParseError>)
    ensures
        r is Ok == elf_parses(bytes@),
        r matches Ok(t) ==> table_view(t) == elf_section_headers(bytes@),
{
    let elf = ElfBytes::<AnyEndian>::minimal_parse(bytes)?;
    Ok(elf.section_headers().map(|table| table.iter().map(|h| (h.sh_addr, h.sh_size)).collect()))
}

/// Why loading failed.
#[derive(Debug, Clone, Copy, PartialEq, Eq, Structural)]
pub enum LoadError {
    InvalidElf,
}

/// A program's memory image and the address it starts at.
pub struct Program {
    addr: u64,
    program: Vec<u8>,
}

impl Program {
    pub closed spec fn addr(&self) -> u64 {
        self.addr
    }

    pub closed spec fn image(&self) -> Seq<u8> {
        self.program@
    }

    /// A zeroed image covering `range`.
    pub fn new(range: Range<u64>) -> (p: Program)
        requires
            range.start <= range.end <= usize::MAX,
        ensures
            p.addr() == range.start,
            p.image() == Seq::new((range.end - range.start) as nat, |i: int| 0u8),
    {
        let len = range.end as usize - range.start as usize;
        let program: Vec<u8> = vec![0u8; len];
        proof {
            assert(program@ =~= Seq::new((range.end - range.start) as nat, |i: int| 0u8));
        }
        Program { addr: range.start, program }
    }

    /// The address the image starts at.
    pub fn start(&self) -> (a: u64)
        ensures
            a == self.addr(),
    {
        self.addr
    }

    /// The image's size in bytes.
    pub fn size(&self) -> (n: usize)
        ensures
            n == self.image().len(),
    {
        self.program.len()
    }

    /// The byte at offset `i` of the image.
    pub fn byte(&self, i: usize) -> (b: u8)
        requires
            i < self.image().len(),
        ensures
            b == self.image()[i as int],
    {
        self.program[i]
    }

    /// Replaces the whole image with `bytes`.
    pub fn insert(&mut self, bytes: &[u8])
        requires
            bytes@.len() == old(self).image().len(),
        ensures
            final(self).image() == bytes@,
            final(self).addr() == old(self).addr(),
    {
        let mut i: usize = 0;
        while i < bytes.len()
            invariant
                i <= bytes@.len(),
                self.program@.len() == bytes@.len(),
                self.addr == old(self).addr,
                forall|k: int| 0 <= k < i ==> self.program@[k] == bytes@[k],
            decreases bytes@.len() - i,
        {
            self.program.set(i, bytes[i]);
            i = i + 1;
        }
        proof {
            assert(self.program@ =~= bytes@);
        }
    }
}

/// A loadable piece of the file: a segment or a section, by address and size.
#[derive(Debug, Clone, Copy, PartialEq, Eq, Structural)]
pub enum Data {
    Segment { addr: u64, size: u64 },
    Section { addr: u64, size: u64 },
}

impl Data {
    pub open spec fn spec_addr(self) -> u64 {
        match self {
            Data::Segment { addr, .. } => addr,
            Data::Section { addr, .. } => addr,
        }
    }

    pub open spec fn spec_size(self) -> u64 {
        match self {
            Data::Segment { size, .. } => size,
            Data::Section { size, .. } => size,
        }
    }

    pub fn addr(&self) -> (a: u64)
        ensures
            a == self.spec_addr(),
    {
        match self {
            Data::Segment { addr, .. } => *addr,
            Data::Section { addr, .. } => *addr,
        }
    }

    pub fn size(&self) -> (s: u64)
        ensures
            s == self.spec_size(),
    {
        match self {
            Data::Segment { size, .. } => *size,
            Data::Section { size, .. } => *size,
        }
    }
}

/// The pieces listed by a table, or none when there is no table.
pub open spec fn pieces(table: Option<Seq<(u64, u64)>>, segment: bool) -> Seq<Data> {
    match table {
        Some(t) => t.map_values(
            |h: (u64, u64)| if segment {
                Data::Segment { addr: h.0, size: h.1 }
            } else {
                Data::Section { addr: h.0, size: h.1 }
            },
        ),
        None => Seq::empty(),
    }
}

/// Lowest start address of the pieces (0 when there are none).
pub open spec fn lowest(d: Seq<Data>) -> u64
    decreases d.len(),
{
    if d.len() == 0 {
        0
    } else if d.len() == 1 || d.last().spec_addr() < lowest(d.drop_last()) {
        d.last().spec_addr()
    } else {
        lowest(d.drop_last())
    }
}

/// Highest end address of the pieces (0 when there are none).
pub open spec fn highest(d: Seq<Data>) -> int
    decreases d.len(),
{
    if d.len() == 0 {
        0
    } else if d.len() == 1 || d.last().spec_addr() + d.last().spec_size() > highest(d.drop_last()) {
        d.last().spec_addr() + d.last().spec_size()
    } else {
        highest(d.drop_last())
    }
}

/// No piece ends past the end of the address space.
pub open spec fn ends_fit(d: Seq<Data>) -> bool {
    forall|i: int| 0 <= i < d.len() ==> (#[trigger] d[i]).spec_addr() + d[i].spec_size() <= u64::MAX
}

/// The image spans every piece: no piece starts below `lowest` or ends past `highest`, and
/// when there are pieces, some piece starts at `lowest` and some piece ends at `highest`.
pub proof fn lemma_span(d: Seq<Data>)
    ensures
        forall|i: int|
            0 <= i < d.len() ==> lowest(d) <= (#[trigger] d[i]).spec_addr() && d[i].spec_addr()
                + d[i].spec_size() <= highest(d),
        d.len() > 0 ==> exists|i: int| 0 <= i < d.len() && (#[trigger] d[i]).spec_addr() == lowest(d),
        d.len() > 0 ==> exists|i: int|
            0 <= i < d.len() && (#[trigger] d[i]).spec_addr() + d[i].spec_size() == highest(d),
    decreases d.len(),
{
    if d.len() > 0 {
        let p = d.drop_last();
        lemma_span(p);
        let n = d.len() - 1;
        assert forall|i: int|
            0 <= i < d.len() implies lowest(d) <= (#[trigger] d[i]).spec_addr() && d[i].spec_addr()
                + d[i].spec_size() <= highest(d) by {
            if i < n {
                assert(d[i] == p[i]);
            }
        }
        if d.len() == 1 {
            assert(d[0].spec_addr() == lowest(d));
            assert(d[0].spec_addr() + d[0].spec_size() == highest(d));
        } else {
            if d.last().spec_addr() < lowest(p) {
                assert(d[n].spec_addr() == lowest(d));
            } else {
                let i = choose|i: int| 0 <= i < p.len() && (#[trigger] p[i]).spec_addr() == lowest(p);
                assert(d[i] == p[i]);
                assert(d[i].spec_addr() == lowest(d));
            }
            if d.last().spec_addr() + d.last().spec_size() > highest(p) {
                assert(d[n].spec_addr() + d[n].spec_size() == highest(d));
            } else {
                let i = choose|i: int|
                    0 <= i < p.len() && (#[trigger] p[i]).spec_addr() + p[i].spec_size() == highest(p);
                assert(d[i] == p[i]);
                assert(d[i].spec_addr() + d[i].spec_size() == highest(d));
            }
        }
    }
}

/// The loader of one ELF file.
pub struct Loader {
    data: Vec<Data>,
}

impl View for Loader {
    type V = Seq<Data>;

    closed spec fn view(&self) -> Seq<Data> {
        self.data@
    }
}

impl Loader {
    /// Parses an ELF file and collects its segments, then its sections; fails with
    /// `InvalidElf` when the header does not parse.
    pub fn new(bytes: &[u8]) -> (r: Result<Loader, LoadError>)
        ensures
            r is Ok == elf_parses(bytes@),
            r matches Err(e) ==> e == LoadError::InvalidElf,
            r matches Ok(l) ==> l@ == pieces(elf_segment_headers(bytes@), true) + pieces(
                elf_section_headers(bytes@),
                false,
            ),
    {
        match elf_segments(bytes) {
            Ok(segs) => {
                let secs = match elf_sections(bytes) {
                    Ok(t) => t,
                    Err(_) => None,
                };
                Ok(Loader::from_headers(segs, secs))
            },
            Err(_) => Err(LoadError::InvalidElf),
        }
    }

    /// The loader over the pieces of a file with these segment and section tables: the
    /// segments first, then the sections.
    pub fn from_headers(segments: Option<Vec<(u64, u64)>>, sections: Option<Vec<(u64, u64)>>) -> (l: Loader)
        ensures
            l@ == pieces(table_view(segments), true) + pieces(table_view(sections), false),
    {
        let mut data: Vec<Data> = Vec::new();
        let ghost segs = table_view(segments);
        let ghost secs = table_view(sections);
        match segments {
            Some(v) => {
                let mut i: usize = 0;
                while i < v.len()
                    invariant
                        i <= v@.len(),
                        data@ == pieces(Some(v@), true).take(i as int),
                    decreases v@.len() - i,
                {
                    let (addr, size) = v[i];
                    data.push(Data::Segment { addr, size });
                    i = i + 1;
                    proof {
                        assert(data@ =~= pieces(Some(v@), true).take(i as int));
                    }
                }
                proof {
                    assert(data@ =~= pieces(segs, true));
                }
            },
            None => {
                proof {
                    assert(data@ =~= pieces(segs, true));
                }
            },
        }
        let ghost first = data@;
        match sections {
            Some(v) => {
                let mut i: usize = 0;
                while i < v.len()
                    invariant
                        i <= v@.len(),
                        data@ == first + pieces(Some(v@), false).take(i as int),
                    decreases v@.len() - i,
                {
                    let (addr, size) = v[i];
                    data.push(Data::Section { addr, size });
                    i = i + 1;
                    proof {
                        assert(data@ =~= first + pieces(Some(v@), false).take(i as int));
                    }
                }
                proof {
                    assert(pieces(secs, false).take(v@.len() as int) =~= pieces(secs, false));
                }
            },
            None => {
                proof {
                    assert(data@ =~= first + pieces(secs, false));
                }
            },
        }
        Loader { data }
    }

    /// The pieces, segments first.
    pub fn pieces(&self) -> (d: Vec<Data>)
        ensures
            d@ == self@,
    {
        self.data.clone()
    }

    /// A zeroed image spanning every piece: from the lowest start to the highest end.
    pub fn load(&mut self) -> (r: Result<Program, LoadError>)
        requires
            ends_fit(old(self)@),
            highest(old(self)@) - lowest(old(self)@) <= usize::MAX,
            highest(old(self)@) <= usize::MAX,
        ensures
            final(self)@ == old(self)@,
            r matches Ok(p) && p.addr() == lowest(old(self)@) && p.image() == Seq::new(
                (highest(old(self)@) - lowest(old(self)@)) as nat,
                |i: int| 0u8,
            ),
            r matches Ok(p) && forall|i: int|
                0 <= i < old(self)@.len() ==> p.addr() <= (#[trigger] old(self)@[i]).spec_addr()
                    && old(self)@[i].spec_addr() + old(self)@[i].spec_size() <= p.addr() + p.image().len(),
    {
        let mut min: u64 = 0;
        let mut max: u64 = 0;
        let mut i: usize = 0;
        while i < self.data.len()
            invariant
                i <= self.data@.len(),
                ends_fit(self.data@),
                min == lowest(self.data@.take(i as int)),
                max == highest(self.data@.take(i as int)),
                i > 0 ==> min <= max,
            decreases self.data@.len() - i,
        {
            let d = self.data[i];
            proof {
                assert(self.data@.take(i as int + 1).drop_last() =~= self.data@.take(i as int));
                assert(self.data@[i as int] == d);
            }
            let end = d.addr() + d.size();
            if i == 0 || d.addr() < min {
                min = d.addr();
            }
            if i == 0 || end > max {
                max = end;
            }
            i = i + 1;
        }
        proof {
            assert(self.data@.take(i as int) =~= self.data@);
            lemma_span(self.data@);
        }
        Ok(Program::new(min..max))
    }
}

} // verus!
