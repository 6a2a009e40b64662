use vstd::prelude::*;

use crate::bytecode::{byte_at, lemma_varuint32_advances, string_at, varuint32_at, Bytecode};
use crate::error::DecodeError;
use crate::section::{
    find_from, get_section_by_id, read_sections, sections_from, Section, SectionId,
};

verus! {

/// The type of a parameter, result or local.
#[derive(Debug, Clone, Copy, PartialEq, Eq, Structural)]
pub enum ValueType {
    I32,
    I64,
    F32,
    F64,
}

/// What an export refers to.
#[derive(Debug, Clone, Copy, PartialEq, Eq, Structural)]
pub enum ExportType {
    Func,
    Table,
    Mem,
    Global,
}

/// A function signature: parameter types, then result types.
#[derive(Debug, Clone, PartialEq, Eq)]
pub struct Type {
    params: Vec<ValueType>,
    results: Vec<ValueType>,
}

/// A declared function: where its instruction stream starts, and the index of
/// its signature.
#[derive(Debug, Clone, Copy, PartialEq, Eq, Structural)]
pub struct Function {
    pub offset: usize,
    pub type_idx: u32,
}

/// A named export of a function, table, memory or global.
#[derive(Debug, Clone, PartialEq, Eq)]
pub struct Export {
    name: String,
    export_type: ExportType,
    exportee_idx: u32,
}

/// A decoded container. Function bodies are not copied out: they are located
/// by offset into the buffer that the module keeps.
#[derive(Debug, Clone, PartialEq, Eq)]
pub struct Module {
    functions: Vec<Function>,
    exports: Vec<Export>,
    types: Vec<Type>,
    bytecode: Bytecode,
}

pub struct TypeView {
    pub params: Seq<ValueType>,
    pub results: Seq<ValueType>,
}

pub struct ExportView {
    pub name: Seq<char>,
    pub export_type: ExportType,
    pub exportee_idx: u32,
}

pub struct ModuleView {
    pub types: Seq<TypeView>,
    pub functions: Seq<Function>,
    pub exports: Seq<ExportView>,
    pub bytes: Seq<u8>,
}

impl View for Type {
    type V = TypeView;

    closed spec fn view(&self) -> TypeView {
        TypeView { params: self.params@, results: self.results@ }
    }
}

impl View for Export {
    type V = ExportView;

    closed spec fn view(&self) -> ExportView {
        ExportView { name: self.name@, export_type: self.export_type, exportee_idx: self.exportee_idx }
    }
}

pub open spec fn type_views(v: Seq<Type>) -> Seq<TypeView> {
    v.map_values(|t: Type| t@)
}

pub open spec fn export_views(v: Seq<Export>) -> Seq<ExportView> {
    v.map_values(|e: Export| e@)
}

impl View for Module {
    type V = ModuleView;

    closed spec fn view(&self) -> ModuleView {
        ModuleView {
            types: type_views(self.types@),
            functions: self.functions@,
            exports: export_views(self.exports@),
            bytes: self.bytecode@,
        }
    }
}

impl Type {
    pub fn params(&self) -> (r: &Vec<ValueType>)
        ensures
            r@ == self@.params,
    {
        &self.params
    }

    pub fn results(&self) -> (r: &Vec<ValueType>)
        ensures
            r@ == self@.results,
    {
        &self.results
    }
}

impl Export {
    pub fn name(&self) -> (r: &String)
        ensures
            r@ == self@.name,
    {
        &self.name
    }

    pub fn export_type(&self) -> (r: ExportType)
        ensures
            r == self@.export_type,
    {
        self.export_type
    }

    pub fn exportee_idx(&self) -> (r: u32)
        ensures
            r == self@.exportee_idx,
    {
        self.exportee_idx
    }
}

impl Module {
    pub fn types(&self) -> (r: &Vec<Type>)
        ensures
            type_views(r@) == self@.types,
    {
        &self.types
    }

    pub fn functions(&self) -> (r: &Vec<Function>)
        ensures
            r@ == self@.functions,
    {
        &self.functions
    }

    pub fn exports(&self) -> (r: &Vec<Export>)
        ensures
            export_views(r@) == self@.exports,
    {
        &self.exports
    }

    pub fn bytecode(&self) -> (r: &Bytecode)
        ensures
            r@ == self@.bytes,
    {
        &self.bytecode
    }
}

pub open spec fn value_type_of(tag: u8) -> Result<ValueType, DecodeError> {
    if tag == 0x7f {
        Ok(ValueType::I32)
    } else if tag == 0x7e {
        Ok(ValueType::I64)
    } else if tag == 0x7d {
        Ok(ValueType::F32)
    } else if tag == 0x7c {
        Ok(ValueType::F64)
    } else {
        Err(DecodeError::UnknownValueType(tag))
    }
}

pub open spec fn export_type_of(tag: u8) -> Result<ExportType, DecodeError> {
    if tag == 0 {
        Ok(ExportType::Func)
    } else if tag == 1 {
        Ok(ExportType::Table)
    } else if tag == 2 {
        Ok(ExportType::Mem)
    } else if tag == 3 {
        Ok(ExportType::Global)
    } else {
        Err(DecodeError::UnknownExportKind(tag))
    }
}

impl ValueType {
    pub fn from_tag(tag: u8) -> (r: Result<ValueType, DecodeError>)
        ensures
            r == value_type_of(tag),
    {
        match tag {
            0x7f => Ok(ValueType::I32),
            0x7e => Ok(ValueType::I64),
            0x7d => Ok(ValueType::F32),
            0x7c => Ok(ValueType::F64),
            _ => Err(DecodeError::UnknownValueType(tag)),
        }
    }
}

impl ExportType {
    pub fn from_tag(tag: u8) -> (r: Result<ExportType, DecodeError>)
        ensures
            r == export_type_of(tag),
    {
        match tag {
            0 => Ok(ExportType::Func),
            1 => Ok(ExportType::Table),
            2 => Ok(ExportType::Mem),
            3 => Ok(ExportType::Global),
            _ => Err(DecodeError::UnknownExportKind(tag)),
        }
    }
}

/// `a` in front of the items that `r` holds, with the offset it reached, or
/// the error that `r` holds.
pub open spec fn then_at<T>(a: Seq<T>, r: Result<(Seq<T>, int), DecodeError>) -> Result<
    (Seq<T>, int),
    DecodeError,
> {
    match r {
        Ok((rest, next)) => Ok((a + rest, next)),
        Err(e) => Err(e),
    }
}

/// `n` single-byte value-type tags from `off`.
pub open spec fn value_types_at(s: Seq<u8>, off: int, n: nat) -> Result<(Seq<ValueType>, int), DecodeError>
    decreases n,
{
    if n == 0 {
        Ok((seq![], off))
    } else {
        match byte_at(s, off) {
            Err(e) => Err(e),
            Ok((tag, next)) => match value_type_of(tag) {
                Err(e) => Err(e),
                Ok(t) => then_at(seq![t], value_types_at(s, next, (n - 1) as nat)),
            },
        }
    }
}

/// One signature at `off`: the form marker 0x60, then the counted parameter
/// types, then the counted result types.
pub open spec fn signature_at(s: Seq<u8>, off: int) -> Result<(TypeView, int), DecodeError> {
    match byte_at(s, off) {
        Err(e) => Err(e),
        Ok((form, o1)) => if form != 0x60 {
            Err(DecodeError::MalformedType)
        } else {
            match varuint32_at(s, o1) {
                Err(e) => Err(e),
                Ok((np, o2)) => match value_types_at(s, o2, np as nat) {
                    Err(e) => Err(e),
                    Ok((params, o3)) => match varuint32_at(s, o3) {
                        Err(e) => Err(e),
                        Ok((nr, o4)) => match value_types_at(s, o4, nr as nat) {
                            Err(e) => Err(e),
                            Ok((results, o5)) => Ok((TypeView { params, results }, o5)),
                        },
                    },
                },
            }
        },
    }
}

/// `n` signatures from `off`.
pub open spec fn signatures_at(s: Seq<u8>, off: int, n: nat) -> Result<(Seq<TypeView>, int), DecodeError>
    decreases n,
{
    if n == 0 {
        Ok((seq![], off))
    } else {
        match signature_at(s, off) {
            Err(e) => Err(e),
            Ok((t, next)) => then_at(seq![t], signatures_at(s, next, (n - 1) as nat)),
        }
    }
}

/// The signatures of a types section whose content starts at `off`.
pub open spec fn types_section(s: Seq<u8>, off: int) -> Result<Seq<TypeView>, DecodeError> {
    match varuint32_at(s, off) {
        Err(e) => Err(e),
        Ok((n, next)) => match signatures_at(s, next, n as nat) {
            Err(e) => Err(e),
            Ok((sigs, _)) => Ok(sigs),
        },
    }
}

fn read_value_types(bytecode: &Bytecode, offset: &mut usize, n: u32) -> (r: Result<Vec<ValueType>, DecodeError>)
    ensures
        match value_types_at(bytecode@, *old(offset) as int, n as nat) {
            Ok((ts, next)) => r is Ok && r->Ok_0@ == ts && *final(offset) == next,
            Err(e) => r == Err::<Vec<ValueType>, DecodeError>(e),
        },
{
    let ghost start = *offset;
    let mut out: Vec<ValueType> = Vec::new();
    let mut i: u32 = 0;
    while i < n
        invariant
            i <= n,
            start == *old(offset),
            value_types_at(bytecode@, start as int, n as nat) == then_at(
                out@,
                value_types_at(bytecode@, *offset as int, (n - i) as nat),
            ),
        decreases n - i,
    {
        let tag = match bytecode.read_char(offset) {
            Ok(b) => b,
            Err(e) => return Err(e),
        };
        let t = match ValueType::from_tag(tag) {
            Ok(t) => t,
            Err(e) => return Err(e),
        };
        let ghost before = out@;
        out.push(t);
        i = i + 1;
        proof {
            let rest = value_types_at(bytecode@, *offset as int, (n - i) as nat);
            if rest is Ok {
                assert(before + (seq![t] + rest->Ok_0.0) =~= out@ + rest->Ok_0.0);
            }
        }
    }
    proof {
        assert(out@ + seq![] =~= out@);
    }
    Ok(out)
}

fn read_signature(bytecode: &Bytecode, offset: &mut usize) -> (r: Result<Type, DecodeError>)
    ensures
        match signature_at(bytecode@, *old(offset) as int) {
            Ok((t, next)) => r is Ok && r->Ok_0@ == t && *final(offset) == next,
            Err(e) => r == Err::<Type, DecodeError>(e),
        },
{
    let form = bytecode.read_char(offset)?;
    if form != 0x60 {
        return Err(DecodeError::MalformedType);
    }
    let np = bytecode.read_u32(offset)?;
    let params = read_value_types(bytecode, offset, np)?;
    let nr = bytecode.read_u32(offset)?;
    let results = read_value_types(bytecode, offset, nr)?;
    Ok(Type { params, results })
}

/// Decodes the signatures of the types section `section`.
pub fn read_types(bytecode: &Bytecode, section: &Section) -> (r: Result<Vec<Type>, DecodeError>)
    ensures
        match types_section(bytecode@, section.offset as int) {
            Ok(ts) => r is Ok && type_views(r->Ok_0@) == ts,
            Err(e) => r == Err::<Vec<Type>, DecodeError>(e),
        },
{
    let mut offset = section.offset;
    let n = bytecode.read_u32(&mut offset)?;
    let ghost start = offset;
    let mut out: Vec<Type> = Vec::new();
    let mut i: u32 = 0;
    while i < n
        invariant
            i <= n,
            varuint32_at(bytecode@, section.offset as int) == Ok::<(u32, int), DecodeError>((n, start as int)),
            signatures_at(bytecode@, start as int, n as nat) == then_at(
                type_views(out@),
                signatures_at(bytecode@, offset as int, (n - i) as nat),
            ),
        decreases n - i,
    {
        let t = match read_signature(bytecode, &mut offset) {
            Ok(t) => t,
            Err(e) => return Err(e),
        };
        let ghost before = type_views(out@);
        out.push(t);
        i = i + 1;
        proof {
            assert(type_views(out@) =~= before + seq![t@]);
            let rest = signatures_at(bytecode@, offset as int, (n - i) as nat);
            if rest is Ok {
                assert(before + (seq![t@] + rest->Ok_0.0) =~= type_views(out@) + rest->Ok_0.0);
            }
        }
    }
    proof {
        assert(type_views(out@) + seq![] =~= type_views(out@));
    }
    Ok(out)
}

/// `g` local-declaration groups from `off`, each a count and a value-type tag:
/// the offset after them.
pub open spec fn locals_at(s: Seq<u8>, off: int, g: nat) -> Result<int, DecodeError>
    decreases g,
{
    if g == 0 {
        Ok(off)
    } else {
        match varuint32_at(s, off) {
            Err(e) => Err(e),
            Ok((_, o1)) => match byte_at(s, o1) {
                Err(e) => Err(e),
                Ok((tag, o2)) => match value_type_of(tag) {
                    Err(e) => Err(e),
                    Ok(_) => locals_at(s, o2, (g - 1) as nat),
                },
            },
        }
    }
}

/// `n` function bodies from `off`. Each is a size, then that many bytes that
/// open with the local declarations; its offset is where the instructions
/// start, after those declarations, and the next body starts `size` bytes after
/// the size field.
pub open spec fn code_bodies_at(s: Seq<u8>, off: int, n: nat) -> Result<(Seq<usize>, int), DecodeError>
    decreases n,
{
    if n == 0 {
        Ok((seq![], off))
    } else {
        match varuint32_at(s, off) {
            Err(e) => Err(e),
            Ok((size, o1)) => if o1 + size > s.len() {
                Err(DecodeError::UnexpectedEnd)
            } else {
                match varuint32_at(s, o1) {
                    Err(e) => Err(e),
                    Ok((groups, o2)) => match locals_at(s, o2, groups as nat) {
                        Err(e) => Err(e),
                        Ok(start) => then_at(
                            seq![start as usize],
                            code_bodies_at(s, o1 + size, (n - 1) as nat),
                        ),
                    },
                }
            },
        }
    }
}

/// The body offsets of a code section whose content starts at `off`.
pub open spec fn code_section_at(s: Seq<u8>, off: int) -> Result<Seq<usize>, DecodeError> {
    match varuint32_at(s, off) {
        Err(e) => Err(e),
        Ok((n, next)) => match code_bodies_at(s, next, n as nat) {
            Err(e) => Err(e),
            Ok((offsets, _)) => Ok(offsets),
        },
    }
}

fn read_locals(bytecode: &Bytecode, offset: &mut usize, g: u32) -> (r: Result<(), DecodeError>)
    ensures
        match locals_at(bytecode@, *old(offset) as int, g as nat) {
            Ok(next) => r is Ok && *final(offset) == next,
            Err(e) => r == Err::<(), DecodeError>(e),
        },
{
    let ghost start = *offset;
    let mut i: u32 = 0;
    while i < g
        invariant
            i <= g,
            start == *old(offset),
            locals_at(bytecode@, start as int, g as nat) == locals_at(
                bytecode@,
                *offset as int,
                (g - i) as nat,
            ),
        decreases g - i,
    {
        match bytecode.read_u32(offset) {
            Ok(_) => {},
            Err(e) => return Err(e),
        }
        let tag = match bytecode.read_char(offset) {
            Ok(b) => b,
            Err(e) => return Err(e),
        };
        match ValueType::from_tag(tag) {
            Ok(_) => {},
            Err(e) => return Err(e),
        }
        i = i + 1;
    }
    Ok(())
}

/// Where each function body of the code section starts.
pub struct CodeSection {
    fn_body_offsets: Vec<usize>,
}

impl View for CodeSection {
    type V = Seq<usize>;

    closed spec fn view(&self) -> Seq<usize> {
        self.fn_body_offsets@
    }
}

impl CodeSection {
    /// Locates the function bodies of the code section `code_section`.
    pub fn from_section(code_section: &Section, bytecode: &Bytecode) -> (r: Result<CodeSection, DecodeError>)
        ensures
            match code_section_at(bytecode@, code_section.offset as int) {
                Ok(offsets) => r is Ok && r->Ok_0@ == offsets,
                Err(e) => r is Err && r->Err_0 == e,
            },
    {
        let mut offset = code_section.offset;
        proof {
            lemma_varuint32_advances(bytecode@, offset as int);
        }
        let function_count = match bytecode.read_u32(&mut offset) {
            Ok(n) => n,
            Err(e) => return Err(e),
        };
        let ghost start = offset;
        let total = bytecode.len();
        let mut offsets: Vec<usize> = Vec::new();
        let mut i: u32 = 0;
        while i < function_count
            invariant
                i <= function_count,
                total == bytecode@.len(),
                offset <= total,
                varuint32_at(bytecode@, code_section.offset as int) == Ok::<(u32, int), DecodeError>(
                    (function_count, start as int),
                ),
                code_bodies_at(bytecode@, start as int, function_count as nat) == then_at(
                    offsets@,
                    code_bodies_at(bytecode@, offset as int, (function_count - i) as nat),
                ),
            decreases function_count - i,
        {
            proof {
                lemma_varuint32_advances(bytecode@, offset as int);
            }
            let body_size = match bytecode.read_u32(&mut offset) {
                Ok(n) => n,
                Err(e) => return Err(e),
            };
            if body_size as usize > total - offset {
                return Err(DecodeError::UnexpectedEnd);
            }
            let next = offset + body_size as usize;
            let groups = match bytecode.read_u32(&mut offset) {
                Ok(n) => n,
                Err(e) => return Err(e),
            };
            match read_locals(bytecode, &mut offset, groups) {
                Ok(()) => {},
                Err(e) => return Err(e),
            }
            let ghost before = offsets@;
            offsets.push(offset);
            proof {
                let rest = code_bodies_at(bytecode@, next as int, (function_count - i - 1) as nat);
                if rest is Ok {
                    assert(before + (seq![offset] + rest->Ok_0.0) =~= offsets@ + rest->Ok_0.0);
                }
            }
            offset = next;
            i = i + 1;
        }
        proof {
            assert(offsets@ + seq![] =~= offsets@);
        }
        Ok(CodeSection { fn_body_offsets: offsets })
    }

    /// The body offset of function `fn_idx`, or `MissingFunctionBody(fn_idx)`.
    pub fn get_code_offset_for_fn(&self, fn_idx: u32) -> (r: Result<usize, DecodeError>)
        ensures
            fn_idx < self@.len() ==> r == Ok::<usize, DecodeError>(self@[fn_idx as int]),
            fn_idx >= self@.len() ==> r == Err::<usize, DecodeError>(
                DecodeError::MissingFunctionBody(fn_idx),
            ),
    {
        if (fn_idx as usize) < self.fn_body_offsets.len() {
            Ok(self.fn_body_offsets[fn_idx as usize])
        } else {
            Err(DecodeError::MissingFunctionBody(fn_idx))
        }
    }
}

/// `n` function declarations from `off`, the `k`-th and later: each a type
/// index, paired with the body offset at the same position.
pub open spec fn functions_at(s: Seq<u8>, off: int, bodies: Seq<usize>, k: nat, n: nat) -> Result<
    (Seq<Function>, int),
    DecodeError,
>
    decreases n,
{
    if n == 0 {
        Ok((seq![], off))
    } else {
        match varuint32_at(s, off) {
            Err(e) => Err(e),
            Ok((type_idx, next)) => then_at(
                seq![Function { offset: bodies[k as int], type_idx }],
                functions_at(s, next, bodies, k + 1, (n - 1) as nat),
            ),
        }
    }
}

/// The functions of a functions section whose content starts at `off`, given
/// the body offsets of the code section. Declaring more functions than there
/// are bodies names the first function without one.
pub open spec fn functions_section(s: Seq<u8>, off: int, bodies: Seq<usize>) -> Result<Seq<Function>, DecodeError> {
    match varuint32_at(s, off) {
        Err(e) => Err(e),
        Ok((n, next)) => if n > bodies.len() {
            Err(DecodeError::MissingFunctionBody(bodies.len() as u32))
        } else {
            match functions_at(s, next, bodies, 0, n as nat) {
                Err(e) => Err(e),
                Ok((fns, _)) => Ok(fns),
            }
        },
    }
}

/// Pairs each function of the functions section `section` with its body in `code`.
pub fn read_functions(bytecode: &Bytecode, section: &Section, code: &CodeSection) -> (r: Result<Vec<Function>, DecodeError>)
    ensures
        match functions_section(bytecode@, section.offset as int, code@) {
            Ok(fns) => r is Ok && r->Ok_0@ == fns,
            Err(e) => r is Err && r->Err_0 == e,
        },
        r is Ok ==> r->Ok_0@.len() <= u32::MAX,
{
    let mut offset = section.offset;
    let functions_count = match bytecode.read_u32(&mut offset) {
        Ok(n) => n,
        Err(e) => return Err(e),
    };
    if functions_count as usize > code.fn_body_offsets.len() {
        return Err(DecodeError::MissingFunctionBody(code.fn_body_offsets.len() as u32));
    }
    let ghost start = offset;
    let mut functions: Vec<Function> = Vec::new();
    let mut function_idx: u32 = 0;
    while function_idx < functions_count
        invariant
            function_idx <= functions_count <= code@.len(),
            functions@.len() == function_idx,
            varuint32_at(bytecode@, section.offset as int) == Ok::<(u32, int), DecodeError>(
                (functions_count, start as int),
            ),
            functions_at(bytecode@, start as int, code@, 0, functions_count as nat) == then_at(
                functions@,
                functions_at(
                    bytecode@,
                    offset as int,
                    code@,
                    function_idx as nat,
                    (functions_count - function_idx) as nat,
                ),
            ),
        decreases functions_count - function_idx,
    {
        let type_idx = match bytecode.read_u32(&mut offset) {
            Ok(n) => n,
            Err(e) => return Err(e),
        };
        let body_offset = match code.get_code_offset_for_fn(function_idx) {
            Ok(o) => o,
            Err(e) => return Err(e),
        };
        let function = Function { offset: body_offset, type_idx };
        let ghost before = functions@;
        functions.push(function);
        function_idx = function_idx + 1;
        proof {
            let rest = functions_at(
                bytecode@,
                offset as int,
                code@,
                function_idx as nat,
                (functions_count - function_idx) as nat,
            );
            if rest is Ok {
                assert(before + (seq![function] + rest->Ok_0.0) =~= functions@ + rest->Ok_0.0);
            }
        }
    }
    proof {
        assert(functions@ + seq![] =~= functions@);
    }
    Ok(functions)
}

/// Locates the code bodies, then pairs each declared function with its body.
pub fn try_read_functions(bytecode: &Bytecode, sections: &Vec<Section>) -> (r: Result<Vec<Function>, DecodeError>)
    ensures
        match find_from(sections@, SectionId::Code, 0) {
            None => r == Err::<Vec<Function>, DecodeError>(DecodeError::MissingSection(SectionId::Code)),
            Some(c) => match code_section_at(bytecode@, c.offset as int) {
                Err(e) => r == Err::<Vec<Function>, DecodeError>(e),
                Ok(bodies) => match find_from(sections@, SectionId::Functions, 0) {
                    None => r == Err::<Vec<Function>, DecodeError>(
                        DecodeError::MissingSection(SectionId::Functions),
                    ),
                    Some(f) => match functions_section(bytecode@, f.offset as int, bodies) {
                        Ok(fns) => r is Ok && r->Ok_0@ == fns,
                        Err(e) => r == Err::<Vec<Function>, DecodeError>(e),
                    },
                },
            },
        },
{
    let code_section = CodeSection::from_section(get_section_by_id(sections, SectionId::Code)?, bytecode)?;
    let functions_section = get_section_by_id(sections, SectionId::Functions)?;
    read_functions(bytecode, functions_section, &code_section)
}

/// One export at `off`: its name, its kind tag and the index it refers to.
pub open spec fn export_at(s: Seq<u8>, off: int) -> Result<(ExportView, int), DecodeError> {
    match string_at(s, off) {
        Err(e) => Err(e),
        Ok((name, o1)) => match byte_at(s, o1) {
            Err(e) => Err(e),
            Ok((tag, o2)) => match export_type_of(tag) {
                Err(e) => Err(e),
                Ok(export_type) => match varuint32_at(s, o2) {
                    Err(e) => Err(e),
                    Ok((exportee_idx, o3)) => Ok((ExportView { name, export_type, exportee_idx }, o3)),
                },
            },
        },
    }
}

/// `n` exports from `off`.
pub open spec fn exports_at(s: Seq<u8>, off: int, n: nat) -> Result<(Seq<ExportView>, int), DecodeError>
    decreases n,
{
    if n == 0 {
        Ok((seq![], off))
    } else {
        match export_at(s, off) {
            Err(e) => Err(e),
            Ok((x, next)) => then_at(seq![x], exports_at(s, next, (n - 1) as nat)),
        }
    }
}

/// The exports of an exports section whose content starts at `off`.
pub open spec fn exports_section(s: Seq<u8>, off: int) -> Result<Seq<ExportView>, DecodeError> {
    match varuint32_at(s, off) {
        Err(e) => Err(e),
        Ok((n, next)) => match exports_at(s, next, n as nat) {
            Err(e) => Err(e),
            Ok((xs, _)) => Ok(xs),
        },
    }
}

fn read_export(bytecode: &Bytecode, offset: &mut usize) -> (r: Result<Export, DecodeError>)
    ensures
        match export_at(bytecode@, *old(offset) as int) {
            Ok((x, next)) => r is Ok && r->Ok_0@ == x && *final(offset) == next,
            Err(e) => r is Err && r->Err_0 == e,
        },
{
    let name = bytecode.read_string(offset)?;
    let tag = bytecode.read_char(offset)?;
    let export_type = ExportType::from_tag(tag)?;
    let exportee_idx = bytecode.read_u32(offset)?;
    Ok(Export { name, export_type, exportee_idx })
}

/// Decodes the exports of the exports section `section`.
pub fn read_exports(bytecode: &Bytecode, section: &Section) -> (r: Result<Vec<Export>, DecodeError>)
    ensures
        match exports_section(bytecode@, section.offset as int) {
            Ok(xs) => r is Ok && export_views(r->Ok_0@) == xs,
            Err(e) => r is Err && r->Err_0 == e,
        },
        r is Ok ==> r->Ok_0@.len() <= u32::MAX,
{
    let mut offset = section.offset;
    let n = bytecode.read_u32(&mut offset)?;
    let ghost start = offset;
    let mut out: Vec<Export> = Vec::new();
    let mut i: u32 = 0;
    while i < n
        invariant
            i <= n,
            out@.len() == i,
            varuint32_at(bytecode@, section.offset as int) == Ok::<(u32, int), DecodeError>((n, start as int)),
            exports_at(bytecode@, start as int, n as nat) == then_at(
                export_views(out@),
                exports_at(bytecode@, offset as int, (n - i) as nat),
            ),
        decreases n - i,
    {
        let x = match read_export(bytecode, &mut offset) {
            Ok(x) => x,
            Err(e) => return Err(e),
        };
        let ghost before = export_views(out@);
        out.push(x);
        i = i + 1;
        proof {
            assert(export_views(out@) =~= before + seq![x@]);
            let rest = exports_at(bytecode@, offset as int, (n - i) as nat);
            if rest is Ok {
                assert(before + (seq![x@] + rest->Ok_0.0) =~= export_views(out@) + rest->Ok_0.0);
            }
        }
    }
    proof {
        assert(export_views(out@) + seq![] =~= export_views(out@));
    }
    Ok(out)
}

/// The fixed header: the magic bytes `\0asm`, then version 1 as a
/// little-endian 32-bit word.
pub open spec fn magic_header() -> Seq<u8> {
    seq![0x00u8, 0x61u8, 0x73u8, 0x6du8, 0x01u8, 0x00u8, 0x00u8, 0x00u8]
}

pub open spec fn header_ok(s: Seq<u8>) -> bool {
    s.len() >= 8 && s.subrange(0, 8) == magic_header()
}

fn has_header(bytecode: &Bytecode) -> (r: bool)
    ensures
        r == header_ok(bytecode@),
{
    if bytecode.len() < 8 {
        return false;
    }
    let expected: [u8; 8] = [0x00, 0x61, 0x73, 0x6d, 0x01, 0x00, 0x00, 0x00];
    proof {
        assert(expected@ =~= magic_header());
    }
    let mut i: usize = 0;
    while i < 8
        invariant
            i <= 8 <= bytecode@.len(),
            expected@ == magic_header(),
            forall|j: int| 0 <= j < i ==> bytecode@[j] == magic_header()[j],
        decreases 8 - i,
    {
        let mut at = i;
        let b = match bytecode.read_char(&mut at) {
            Ok(b) => b,
            Err(_) => return false,
        };
        if b != expected[i] {
            assert(bytecode@.subrange(0, 8)[i as int] != magic_header()[i as int]);
            return false;
        }
        i = i + 1;
    }
    assert(bytecode@.subrange(0, 8) =~= magic_header());
    true
}

/// Every function names an existing signature; otherwise the first that
/// does not, from index `i` on.
pub open spec fn type_indices_ok(fns: Seq<Function>, n_types: nat, i: int) -> Result<(), DecodeError>
    decreases fns.len() - i,
{
    if 0 <= i < fns.len() {
        if fns[i].type_idx >= n_types {
            Err(DecodeError::InvalidTypeIndex(i as u32))
        } else {
            type_indices_ok(fns, n_types, i + 1)
        }
    } else {
        Ok(())
    }
}

/// Every function export names an existing function; otherwise the first
/// that does not, from index `i` on.
pub open spec fn export_targets_ok(xs: Seq<ExportView>, n_fns: nat, i: int) -> Result<(), DecodeError>
    decreases xs.len() - i,
{
    if 0 <= i < xs.len() {
        if xs[i].export_type == ExportType::Func && xs[i].exportee_idx >= n_fns {
            Err(DecodeError::InvalidExportTarget(i as u32))
        } else {
            export_targets_ok(xs, n_fns, i + 1)
        }
    } else {
        Ok(())
    }
}

fn check_type_indices(functions: &Vec<Function>, n_types: usize) -> (r: Result<(), DecodeError>)
    requires
        functions@.len() <= u32::MAX,
    ensures
        r == type_indices_ok(functions@, n_types as nat, 0),
{
    let mut i: usize = 0;
    while i < functions.len()
        invariant
            i <= functions@.len() <= u32::MAX,
            type_indices_ok(functions@, n_types as nat, 0) == type_indices_ok(functions@, n_types as nat, i as int),
        decreases functions@.len() - i,
    {
        if functions[i].type_idx as usize >= n_types {
            return Err(DecodeError::InvalidTypeIndex(i as u32));
        }
        i = i + 1;
    }
    Ok(())
}

fn check_export_targets(exports: &Vec<Export>, n_fns: usize) -> (r: Result<(), DecodeError>)
    requires
        exports@.len() <= u32::MAX,
    ensures
        r == export_targets_ok(export_views(exports@), n_fns as nat, 0),
{
    let ghost xs = export_views(exports@);
    let mut i: usize = 0;
    while i < exports.len()
        invariant
            i <= exports@.len() <= u32::MAX,
            xs == export_views(exports@),
            export_targets_ok(xs, n_fns as nat, 0) == export_targets_ok(xs, n_fns as nat, i as int),
        decreases exports@.len() - i,
    {
        let x = &exports[i];
        assert(xs[i as int] == x@);
        if x.export_type == ExportType::Func && x.exportee_idx as usize >= n_fns {
            return Err(DecodeError::InvalidExportTarget(i as u32));
        }
        i = i + 1;
    }
    Ok(())
}

/// What decoding `s` gives: the header is checked, the sections are scanned,
/// then the code bodies are located, and the signatures, the functions and
/// the exports decoded, in that order; last, every function's type index and
/// every function export's target are checked against what was decoded.
pub open spec fn parse_bytes(s: Seq<u8>) -> Result<ModuleView, DecodeError> {
    if !header_ok(s) {
        Err(DecodeError::BadHeader)
    } else {
        match sections_from(s, 8) {
            Err(e) => Err(e),
            Ok(secs) => match find_from(secs, SectionId::Code, 0) {
                None => Err(DecodeError::MissingSection(SectionId::Code)),
                Some(c) => match code_section_at(s, c.offset as int) {
                    Err(e) => Err(e),
                    Ok(bodies) => match find_from(secs, SectionId::Types, 0) {
                        None => Err(DecodeError::MissingSection(SectionId::Types)),
                        Some(t) => match types_section(s, t.offset as int) {
                            Err(e) => Err(e),
                            Ok(types) => match find_from(secs, SectionId::Functions, 0) {
                                None => Err(DecodeError::MissingSection(SectionId::Functions)),
                                Some(f) => match functions_section(s, f.offset as int, bodies) {
                                    Err(e) => Err(e),
                                    Ok(functions) => match find_from(secs, SectionId::Exports, 0) {
                                        None => Err(DecodeError::MissingSection(SectionId::Exports)),
                                        Some(x) => match exports_section(s, x.offset as int) {
                                            Err(e) => Err(e),
                                            Ok(exports) => parse_checked(s, types, functions, exports),
                                        },
                                    },
                                },
                            },
                        },
                    },
                },
            },
        }
    }
}

/// The module made of the decoded parts, once their cross references are checked.
pub open spec fn parse_checked(
    s: Seq<u8>,
    types: Seq<TypeView>,
    functions: Seq<Function>,
    exports: Seq<ExportView>,
) -> Result<ModuleView, DecodeError> {
    match type_indices_ok(functions, types.len(), 0) {
        Err(e) => Err(e),
        Ok(_) => match export_targets_ok(exports, functions.len(), 0) {
            Err(e) => Err(e),
            Ok(_) => Ok(ModuleView { types, functions, exports, bytes: s }),
        },
    }
}

/// What `parse` promises of its result for the buffer `s`.
pub open spec fn parse_result_matches(s: Seq<u8>, r: Result<Module, DecodeError>) -> bool {
    match parse_bytes(s) {
        Ok(m) => r is Ok && r->Ok_0@ == m,
        Err(e) => r is Err && r->Err_0 == e,
    }
}

/// Decodes a whole container into a module, or reports the first problem.
pub fn parse(bytecode: Bytecode) -> (r: Result<Module, DecodeError>)
    ensures
        parse_result_matches(bytecode@, r),
{
    if !has_header(&bytecode) {
        return Err(DecodeError::BadHeader);
    }
    let sections = read_sections(&bytecode)?;
    let code = CodeSection::from_section(get_section_by_id(&sections, SectionId::Code)?, &bytecode)?;
    let types = read_types(&bytecode, get_section_by_id(&sections, SectionId::Types)?)?;
    let functions = read_functions(
        &bytecode,
        get_section_by_id(&sections, SectionId::Functions)?,
        &code,
    )?;
    let exports = read_exports(&bytecode, get_section_by_id(&sections, SectionId::Exports)?)?;
    check_type_indices(&functions, types.len())?;
    check_export_targets(&exports, functions.len())?;
    Ok(Module { functions, exports, types, bytecode })
}

proof fn lemma_code_bodies_count(s: Seq<u8>, off: int, n: nat)
    requires
        code_bodies_at(s, off, n) is Ok,
    ensures
        code_bodies_at(s, off, n)->Ok_0.0.len() == n,
    decreases n,
{
    if n > 0 {
        let (size, o1) = varuint32_at(s, off)->Ok_0;
        lemma_code_bodies_count(s, o1 + size, (n - 1) as nat);
    }
}

/// When the functions section declares more functions than the code section
/// declares bodies, building the function table fails, naming the first
/// function without a body: its index is the number of bodies.
pub proof fn lemma_missing_function_body(s: Seq<u8>, code_off: int, fn_off: int)
    requires
        code_section_at(s, code_off) is Ok,
        varuint32_at(s, code_off) is Ok,
        varuint32_at(s, fn_off) is Ok,
        varuint32_at(s, fn_off)->Ok_0.0 > varuint32_at(s, code_off)->Ok_0.0,
    ensures
        functions_section(s, fn_off, code_section_at(s, code_off)->Ok_0) == Err::<Seq<Function>, DecodeError>(
            DecodeError::MissingFunctionBody(varuint32_at(s, code_off)->Ok_0.0),
        ),
{
    let (n, next) = varuint32_at(s, code_off)->Ok_0;
    lemma_code_bodies_count(s, next, n as nat);
}

proof fn lemma_signatures_stop_at_wrong_form(s: Seq<u8>, off: int, k: nat, n: nat)
    requires
        k < n,
        signatures_at(s, off, k) is Ok,
        0 <= signatures_at(s, off, k)->Ok_0.1 < s.len(),
        s[signatures_at(s, off, k)->Ok_0.1] != 0x60,
    ensures
        signatures_at(s, off, n) == Err::<(Seq<TypeView>, int), DecodeError>(DecodeError::MalformedType),
    decreases k,
{
    if k > 0 {
        let (_, next) = signature_at(s, off)->Ok_0;
        lemma_signatures_stop_at_wrong_form(s, next, (k - 1) as nat, (n - 1) as nat);
    }
}

/// A signature of the types section that does not open with the form marker
/// 0x60 (0x61, say) makes the whole section fail with `MalformedType`: no
/// signature of it is kept, not even those decoded before it.
pub proof fn lemma_malformed_type(s: Seq<u8>, off: int, k: nat)
    requires
        varuint32_at(s, off) is Ok,
        k < varuint32_at(s, off)->Ok_0.0,
        signatures_at(s, varuint32_at(s, off)->Ok_0.1, k) is Ok,
        0 <= signatures_at(s, varuint32_at(s, off)->Ok_0.1, k)->Ok_0.1 < s.len(),
        s[signatures_at(s, varuint32_at(s, off)->Ok_0.1, k)->Ok_0.1] != 0x60,
    ensures
        types_section(s, off) == Err::<Seq<TypeView>, DecodeError>(DecodeError::MalformedType),
{
    let (n, first) = varuint32_at(s, off)->Ok_0;
    lemma_signatures_stop_at_wrong_form(s, first, k, n as nat);
}

/// A buffer shorter than the header, or whose first eight bytes differ from
/// it, is rejected with `BadHeader` whatever follows.
pub proof fn lemma_bad_header(s: Seq<u8>)
    requires
        !header_ok(s),
    ensures
        parse_bytes(s) == Err::<ModuleView, DecodeError>(DecodeError::BadHeader),
{
}

/// Decoding the same bytes twice gives the same outcome: two modules equal in
/// every field, or the same error.
pub proof fn lemma_parse_deterministic(s: Seq<u8>, r1: Result<Module, DecodeError>, r2: Result<Module, DecodeError>)
    requires
        parse_result_matches(s, r1),
        parse_result_matches(s, r2),
    ensures
        r1 is Ok <==> r2 is Ok,
        r1 is Ok ==> r1->Ok_0@ == r2->Ok_0@,
        r1 is Err ==> r1->Err_0 == r2->Err_0,
{
}

} // verus!
