use vstd::prelude::*;

use crate::bytecode::{byte_at, lemma_varuint32_advances, varuint32_at, Bytecode};
use crate::error::DecodeError;

verus! {

/// The kind of a section, from its tag byte.
#[derive(Debug, Clone, Copy, PartialEq, Eq, Structural)]
pub enum SectionId {
    Types,
    Functions,
    Code,
    Exports,
    Unknown(u8),
}

pub open spec fn section_id_of(tag: u8) -> SectionId {
    if tag == 1 {
        SectionId::Types
    } else if tag == 3 {
        SectionId::Functions
    } else if tag == 7 {
        SectionId::Exports
    } else if tag == 10 {
        SectionId::Code
    } else {
        SectionId::Unknown(tag)
    }
}

impl SectionId {
    pub fn from_tag(tag: u8) -> (r: SectionId)
        ensures
            r == section_id_of(tag),
    {
        match tag {
            1 => SectionId::Types,
            3 => SectionId::Functions,
            7 => SectionId::Exports,
            10 => SectionId::Code,
            _ => SectionId::Unknown(tag),
        }
    }
}

/// A section as the scanner finds it: its kind, where its content starts and
/// how many bytes of content it declares.
#[derive(Debug, Clone, Copy, PartialEq, Eq, Structural)]
pub struct Section {
    pub id: SectionId,
    pub offset: usize,
    pub length: u32,
}

/// `a` in front of the sequence that `r` holds, or the error that `r` holds.
pub open spec fn seq_then<T>(a: Seq<T>, r: Result<Seq<T>, DecodeError>) -> Result<Seq<T>, DecodeError> {
    match r {
        Ok(rest) => Ok(a + rest),
        Err(e) => Err(e),
    }
}

/// The sections found from `off` to the end of `s`. Each is an opaque span of
/// its declared length, skipped whatever its kind.
pub open spec fn sections_from(s: Seq<u8>, off: int) -> Result<Seq<Section>, DecodeError>
    decreases s.len() - off,
    via sections_from_decreases
{
    if off >= s.len() {
        Ok(seq![])
    } else {
        match byte_at(s, off) {
            Err(e) => Err(e),
            Ok((tag, at)) => match varuint32_at(s, at) {
                Err(DecodeError::UnexpectedEnd) => Err(DecodeError::TruncatedSection),
                Err(e) => Err(e),
                Ok((length, content)) => if content + length > s.len() {
                    Err(DecodeError::TruncatedSection)
                } else {
                    let sec = Section { id: section_id_of(tag), offset: content as usize, length };
                    seq_then(seq![sec], sections_from(s, content + length))
                },
            },
        }
    }
}

#[via_fn]
proof fn sections_from_decreases(s: Seq<u8>, off: int) {
    lemma_varuint32_advances(s, off + 1);
}

/// Walks the sections that follow the 8-byte header.
pub fn read_sections(bytecode: &Bytecode) -> (r: Result<Vec<Section>, DecodeError>)
    ensures
        match sections_from(bytecode@, 8) {
            Ok(secs) => r is Ok && r->Ok_0@ == secs,
            Err(e) => r == Err::<Vec<Section>, DecodeError>(e),
        },
{
    let mut offset: usize = 8;
    let mut sections: Vec<Section> = Vec::new();
    let total = bytecode.len();
    while offset < total
        invariant
            total == bytecode@.len(),
            sections_from(bytecode@, 8) == seq_then(sections@, sections_from(bytecode@, offset as int)),
        decreases total - offset,
    {
        let ghost at = offset;
        let tag = bytecode.read_char(&mut offset)?;
        proof {
            lemma_varuint32_advances(bytecode@, offset as int);
        }
        let length = match bytecode.read_u32(&mut offset) {
            Ok(n) => n,
            Err(DecodeError::UnexpectedEnd) => return Err(DecodeError::TruncatedSection),
            Err(e) => return Err(e),
        };
        if length as usize > total - offset {
            return Err(DecodeError::TruncatedSection);
        }
        let sec = Section { id: SectionId::from_tag(tag), offset, length };
        let ghost before = sections@;
        sections.push(sec);
        offset = offset + length as usize;
        proof {
            assert(sections@ == before + seq![sec]);
            assert(before + (seq![sec] + sections_from(bytecode@, offset as int)->Ok_0) =~= sections@
                + sections_from(bytecode@, offset as int)->Ok_0);
        }
    }
    proof {
        assert(sections@ + seq![] =~= sections@);
    }
    Ok(sections)
}

/// The first section of kind `id` at index `i` or later.
pub open spec fn find_from(secs: Seq<Section>, id: SectionId, i: int) -> Option<Section>
    decreases secs.len() - i,
{
    if 0 <= i < secs.len() {
        if secs[i].id == id {
            Some(secs[i])
        } else {
            find_from(secs, id, i + 1)
        }
    } else {
        None
    }
}

/// The first section of kind `id`, if any.
pub fn find_section_by_id(sections: &Vec<Section>, id: SectionId) -> (r: Option<&Section>)
    ensures
        match find_from(sections@, id, 0) {
            Some(sec) => r is Some && *r->Some_0 == sec,
            None => r is None,
        },
{
    let mut i: usize = 0;
    while i < sections.len()
        invariant
            i <= sections@.len(),
            find_from(sections@, id, 0) == find_from(sections@, id, i as int),
        decreases sections@.len() - i,
    {
        if sections[i].id == id {
            return Some(&sections[i]);
        }
        i = i + 1;
    }
    None
}

/// The first section of kind `id`, or `MissingSection(id)`.
pub fn get_section_by_id(sections: &Vec<Section>, id: SectionId) -> (r: Result<&Section, DecodeError>)
    ensures
        match find_from(sections@, id, 0) {
            Some(sec) => r is Ok && *r->Ok_0 == sec,
            None => r == Err::<&Section, DecodeError>(DecodeError::MissingSection(id)),
        },
{
    match find_section_by_id(sections, id) {
        Some(sec) => Ok(sec),
        None => Err(DecodeError::MissingSection(id)),
    }
}

/// Number of bytes that the variable-length integer at `at` takes.
pub open spec fn varuint32_len(s: Seq<u8>, at: int) -> int {
    match varuint32_at(s, at) {
        Ok((_, next)) => next - at,
        Err(_) => 0,
    }
}

/// Bytes taken by `secs` laid out one after the other from `start`: for each
/// section its tag byte, its length field and its declared content.
pub open spec fn spans_total(s: Seq<u8>, secs: Seq<Section>, start: int) -> int
    decreases secs.len(),
{
    if secs.len() == 0 {
        0
    } else {
        1 + varuint32_len(s, start + 1) + secs[0].length + spans_total(
            s,
            secs.drop_first(),
            secs[0].offset + secs[0].length,
        )
    }
}

proof fn lemma_spans_from(s: Seq<u8>, off: int)
    requires
        off <= s.len() <= usize::MAX,
        sections_from(s, off) is Ok,
    ensures
        spans_total(s, sections_from(s, off)->Ok_0, off) == s.len() - off,
    decreases s.len() - off,
{
    if off < s.len() {
        lemma_varuint32_advances(s, off + 1);
        let (length, content) = varuint32_at(s, off + 1)->Ok_0;
        let secs = sections_from(s, off)->Ok_0;
        lemma_spans_from(s, content + length);
        assert(secs.drop_first() =~= sections_from(s, content + length)->Ok_0);
    }
}

/// When the sections after the header scan without error, the scan takes up
/// the rest of the buffer exactly once: the tag bytes, length fields and
/// declared contents of all sections add up to the buffer's length minus 8.
pub proof fn lemma_sections_cover_buffer(s: Seq<u8>)
    requires
        8 <= s.len() <= usize::MAX,
        sections_from(s, 8) is Ok,
    ensures
        spans_total(s, sections_from(s, 8)->Ok_0, 8) == s.len() - 8,
{
    lemma_spans_from(s, 8);
}

} // verus!
