//! Programs: the named functions of a linked executable, found through its
//! `.eh_frame` table and its symbols, with their code bytes.
use crate::eh_frame::{get_fdes, spec_fdes, EhFrameError, Fde};
use crate::name_index::{names_of, NameIndex};
use object::{Object, ObjectSection};
use std::collections::HashMap;
use vstd::prelude::*;

verus! {

broadcast use vstd::std_specs::hash::group_hash_axioms;

/// A function: its start address and a copy of its code bytes.
pub struct Function {
    pub address: u64,
    pub content: Vec<u8>,
}

impl Function {
    pub fn new(address: u64, content: Vec<u8>) -> (r: Function)
        ensures
            r.address == address,
            r.content@ == content@,
    {
        Function { address, content }
    }

    pub fn address(&self) -> (r: u64)
        ensures
            r == self.address,
    {
        self.address
    }
}

/// A loaded program: its pointer size (4 or 8 bytes), its functions by symbol
/// name, and its symbols by address.
pub struct Program {
    pub pointer_size: usize,
    pub functions: Vec<(String, Function)>,
    pub symbol_map: HashMap<u64, String>,
}

impl Program {
    /// The pointer size is 4 or 8; function names are unique; every function's
    /// address is a symbol whose name is the function's name.
    pub open spec fn wf(&self) -> bool {
        &&& self.pointer_size == 4 || self.pointer_size == 8
        &&& forall|i: int, j: int| 0 <= i < j < self.functions@.len()
            ==> (#[trigger] self.functions@[i]).0@ != (#[trigger] self.functions@[j]).0@
        &&& forall|i: int| 0 <= i < self.functions@.len() ==> {
            let (name, f) = #[trigger] self.functions@[i];
            self.symbol_map@.contains_key(f.address) && self.symbol_map@[f.address]@ == name@
        }
    }

    /// The code bytes of a function.
    pub fn get_data_for_function<'a>(&self, function: &'a Function) -> (r: Option<&'a [u8]>)
        ensures
            r matches Some(c) && c@ == function.content@,
    {
        Some(function.content.as_slice())
    }
}


/// A section of an object file: name, load address, size, and its bytes after
/// decompression, when the object crate could produce them.
pub struct SectionData {
    pub name: String,
    pub address: u64,
    pub size: u64,
    pub data: Option<Vec<u8>>,
}

/// What the loader reads from an object file: whether it is 64-bit, its sections
/// in order, and its symbols as (address, name) pairs in ascending address order.
pub struct ObjectImage {
    pub is_64: bool,
    pub sections: Vec<SectionData>,
    pub symbols: Vec<(u64, String)>,
}

/// A section, as plain values.
pub struct SectionView {
    pub name: Seq<char>,
    pub address: u64,
    pub size: u64,
    pub data: Option<Seq<u8>>,
}

/// An object file, as plain values.
pub struct ObjectView {
    pub is_64: bool,
    pub sections: Seq<SectionView>,
    pub symbols: Seq<(u64, Seq<char>)>,
}

pub open spec fn section_view(s: SectionData) -> SectionView {
    SectionView {
        name: s.name@,
        address: s.address,
        size: s.size,
        data: match s.data {
            Some(d) => Some(d@),
            None => None,
        },
    }
}

pub open spec fn sections_view(secs: Seq<SectionData>) -> Seq<SectionView> {
    secs.map_values(|s: SectionData| section_view(s))
}

pub open spec fn symbols_view(syms: Seq<(u64, String)>) -> Seq<(u64, Seq<char>)> {
    syms.map_values(|p: (u64, String)| (p.0, p.1@))
}

pub open spec fn image_view(img: ObjectImage) -> ObjectView {
    ObjectView { is_64: img.is_64, sections: sections_view(img.sections@), symbols: symbols_view(img.symbols@) }
}

/// The object file that the object crate reads from `data`, if it reads one.
pub uninterp spec fn parsed_object(data: Seq<u8>) -> Option<ObjectView>;

/// Relies on `object::File::parse`, `Object::is_64`, `Object::sections` with
/// `ObjectSection::{name, address, size, uncompressed_data}`, and
/// `Object::symbol_map` with `SymbolMapName::{address, name}`: all of it is read
/// from the file's bytes alone. Fields are taken over as they come; a section name
/// that cannot be read becomes empty, and bytes that cannot be decompressed `None`.
#[verifier::external_body]
fn read_object(data: &[u8]) -> (r: Option<ObjectImage>)
    ensures
        match r {
            None => parsed_object(data@) is None,
            Some(img) => parsed_object(data@) == Some(image_view(img)),
        },
{
    let file = object::File::parse(data).ok()?;
    let sections = file.sections().map(|s| SectionData {
        name: s.name().unwrap_or("").to_string(), address: s.address(), size: s.size(),
        data: s.uncompressed_data().ok().map(|d| d.into_owned()),
    }).collect();
    let symbols = file.symbol_map().symbols().iter().map(|s| (s.address(), s.name().to_string())).collect();
    Some(ObjectImage { is_64: file.is_64(), sections, symbols })
}

/// Why a program could not be loaded.
#[derive(Debug, Clone, Copy, PartialEq, Eq, Structural)]
pub enum LoadError {
    /// The bytes are no object file the object crate reads.
    MalformedObject,
    /// The object has no `.eh_frame` section, or its bytes could not be read.
    MissingEhFrame,
    /// The unwind table is malformed.
    EhFrame(EhFrameError),
    /// No section holds the whole function that starts at this address.
    MissingSection(u64),
}

pub open spec fn eh_frame_name() -> Seq<char> {
    seq!['.', 'e', 'h', '_', 'f', 'r', 'a', 'm', 'e']
}

/// The first section named `.eh_frame`.
pub open spec fn eh_frame_index(secs: Seq<SectionView>, k: int) -> Option<int>
    decreases secs.len() - k,
{
    if k < 0 || k >= secs.len() {
        None
    } else if secs[k].name == eh_frame_name() {
        Some(k)
    } else {
        eh_frame_index(secs, k + 1)
    }
}

/// The first section whose address range holds `addr`.
pub open spec fn containing_section(secs: Seq<SectionView>, addr: u64, k: int) -> Option<int>
    decreases secs.len() - k,
{
    if k < 0 || k >= secs.len() {
        None
    } else if secs[k].address <= addr && addr < secs[k].address + secs[k].size {
        Some(k)
    } else {
        containing_section(secs, addr, k + 1)
    }
}

/// The symbols by address; of two at one address the later one counts.
pub open spec fn symbol_table(syms: Seq<(u64, Seq<char>)>, k: int) -> Map<u64, Seq<char>>
    decreases k,
{
    if k <= 0 {
        Map::empty()
    } else {
        symbol_table(syms, k - 1).insert(syms[k - 1].0, syms[k - 1].1)
    }
}

/// The functions by name after taking in the first `k` FDEs: an FDE whose start is
/// a symbol becomes the function of that name, with its bytes copied out of the
/// section that holds its start; one without a symbol is passed over.
pub open spec fn functions_after(
    secs: Seq<SectionView>,
    table: Map<u64, Seq<char>>,
    fdes: Seq<Fde>,
    k: int,
) -> Result<Map<Seq<char>, (u64, Seq<u8>)>, LoadError>
    decreases k,
{
    if k <= 0 {
        Ok(Map::empty())
    } else {
        match functions_after(secs, table, fdes, k - 1) {
            Err(e) => Err(e),
            Ok(m) => {
                let fde = fdes[k - 1];
                if !table.contains_key(fde.begin) {
                    Ok(m)
                } else {
                    match containing_section(secs, fde.begin, 0) {
                        None => Err(LoadError::MissingSection(fde.begin)),
                        Some(i) => {
                            let off = fde.begin - secs[i].address;
                            match secs[i].data {
                                Some(d) => if off + fde.length <= d.len() {
                                    Ok(m.insert(table[fde.begin], (fde.begin, d.subrange(off, off + fde.length))))
                                } else {
                                    Err(LoadError::MissingSection(fde.begin))
                                },
                                None => Err(LoadError::MissingSection(fde.begin)),
                            }
                        },
                    }
                }
            },
        }
    }
}

/// `fns` holds, under unique names, exactly the functions of `m`.
pub open spec fn represents(fns: Seq<(String, Function)>, m: Map<Seq<char>, (u64, Seq<u8>)>) -> bool {
    &&& forall|i: int, j: int| 0 <= i < j < fns.len() ==> (#[trigger] fns[i]).0@ != (#[trigger] fns[j]).0@
    &&& forall|i: int| 0 <= i < fns.len() ==> m.contains_key((#[trigger] fns[i]).0@) && m[fns[i].0@] == (
        fns[i].1.address,
        fns[i].1.content@,
    )
    &&& forall|n: Seq<char>| #[trigger] m.contains_key(n) ==> exists|i: int| 0 <= i < fns.len() && (#[trigger] fns[i]).0@ == n
}

/// The symbol map holds exactly the table.
pub open spec fn same_symbols(m: Map<u64, String>, t: Map<u64, Seq<char>>) -> bool {
    &&& forall|a: u64| #[trigger] m.contains_key(a) <==> t.contains_key(a)
    &&& forall|a: u64| #[trigger] m.contains_key(a) ==> m[a]@ == t[a]
}

/// The program that an object file describes, as pointer size, symbols and
/// functions, or why there is none.
pub open spec fn program_of(v: ObjectView) -> Result<(usize, Map<u64, Seq<char>>, Map<Seq<char>, (u64, Seq<u8>)>), LoadError> {
    let pointer_size: usize = if v.is_64 { 8 } else { 4 };
    match eh_frame_index(v.sections, 0) {
        None => Err(LoadError::MissingEhFrame),
        Some(e) => match v.sections[e].data {
            None => Err(LoadError::MissingEhFrame),
            Some(eh) => match spec_fdes(eh, pointer_size, v.sections[e].address) {
                Err(err) => Err(LoadError::EhFrame(err)),
                Ok(fdes) => {
                    let table = symbol_table(v.symbols, v.symbols.len() as int);
                    match functions_after(v.sections, table, fdes, fdes.len() as int) {
                        Err(err) => Err(err),
                        Ok(m) => Ok((pointer_size, table, m)),
                    }
                },
            },
        },
    }
}

/// `fns` holds a function with the name, address and bytes of `f`.
pub open spec fn holds_function(fns: Seq<(String, Function)>, f: (String, Function)) -> bool {
    exists|j: int|
        0 <= j < fns.len() && fns[j].0@ == f.0@ && fns[j].1.address == f.1.address && fns[j].1.content@ == f.1.content@
}

/// `r` is what loading `data` yields.
pub open spec fn loaded_from(data: Seq<u8>, r: Result<Program, LoadError>) -> bool {
    match parsed_object(data) {
        None => r == Err::<Program, LoadError>(LoadError::MalformedObject),
        Some(v) => match (r, program_of(v)) {
            (Ok(p), Ok(e)) => p.wf() && is_program(p, e),
            (Err(a), Err(b)) => a == b,
            _ => false,
        },
    }
}

/// Loading is a function of the bytes: two loads of the same bytes fail alike, or
/// give the same pointer size, the same symbols, and the same functions by name.
pub proof fn lemma_load_deterministic(data: Seq<u8>, r1: Result<Program, LoadError>, r2: Result<Program, LoadError>)
    requires
        loaded_from(data, r1),
        loaded_from(data, r2),
    ensures
        match (r1, r2) {
            (Ok(p), Ok(q)) => {
                &&& p.pointer_size == q.pointer_size
                &&& forall|a: u64| #[trigger] p.symbol_map@.contains_key(a) <==> q.symbol_map@.contains_key(a)
                &&& forall|a: u64| #[trigger] p.symbol_map@.contains_key(a) ==> p.symbol_map@[a]@ == q.symbol_map@[a]@
                &&& forall|i: int| 0 <= i < p.functions@.len() ==> #[trigger] holds_function(q.functions@, p.functions@[i])
            },
            (Err(a), Err(b)) => a == b,
            _ => false,
        },
{
    match parsed_object(data) {
        None => {
            assert(r1 == Err::<Program, LoadError>(LoadError::MalformedObject));
            assert(r2 == Err::<Program, LoadError>(LoadError::MalformedObject));
        },
        Some(v) => match program_of(v) {
            Err(b) => {
                assert(r1 matches Err(x) && x == b);
                assert(r2 matches Err(x) && x == b);
            },
            Ok(e) => {
                assert(r1 is Ok && r2 is Ok);
                let p = r1->Ok_0;
                let q = r2->Ok_0;
                assert(is_program(p, e) && is_program(q, e));
                assert forall|a: u64| #[trigger] p.symbol_map@.contains_key(a) <==> q.symbol_map@.contains_key(a) by {
                    assert(p.symbol_map@.contains_key(a) <==> e.1.contains_key(a));
                    assert(q.symbol_map@.contains_key(a) <==> e.1.contains_key(a));
                }
                assert forall|a: u64| #[trigger] p.symbol_map@.contains_key(a) implies p.symbol_map@[a]@ == q.symbol_map@[a]@ by {
                    assert(q.symbol_map@.contains_key(a) <==> e.1.contains_key(a));
                }
                assert forall|i: int| 0 <= i < p.functions@.len() implies #[trigger] holds_function(
                    q.functions@,
                    p.functions@[i],
                ) by {
                    let n = p.functions@[i].0@;
                    assert(e.2.contains_key(n));
                    let j = choose|j: int| 0 <= j < q.functions@.len() && (#[trigger] q.functions@[j]).0@ == n;
                    assert(e.2[q.functions@[j].0@] == (q.functions@[j].1.address, q.functions@[j].1.content@));
                }
            },
        },
    }
}

/// `p` is the program `expected` describes.
pub open spec fn is_program(p: Program, expected: (usize, Map<u64, Seq<char>>, Map<Seq<char>, (u64, Seq<u8>)>)) -> bool {
    &&& p.pointer_size == expected.0
    &&& same_symbols(p.symbol_map@, expected.1)
    &&& represents(p.functions@, expected.2)
}

proof fn lemma_eh_frame_index(secs: Seq<SectionView>, k: int)
    ensures
        eh_frame_index(secs, k) matches Some(j) ==> k <= j < secs.len() && secs[j].name == eh_frame_name(),
    decreases secs.len() - k,
{
    if 0 <= k < secs.len() && secs[k].name != eh_frame_name() {
        lemma_eh_frame_index(secs, k + 1);
    }
}

proof fn lemma_containing_section(secs: Seq<SectionView>, addr: u64, k: int)
    ensures
        containing_section(secs, addr, k) matches Some(j) ==> k <= j < secs.len() && secs[j].address <= addr
            < secs[j].address + secs[j].size,
    decreases secs.len() - k,
{
    if 0 <= k < secs.len() && !(secs[k].address <= addr && addr < secs[k].address + secs[k].size) {
        lemma_containing_section(secs, addr, k + 1);
    }
}

/// Once taking in the FDEs fails, it fails the same way to the end.
proof fn lemma_functions_after_err(
    secs: Seq<SectionView>,
    table: Map<u64, Seq<char>>,
    fdes: Seq<Fde>,
    k: int,
    n: int,
)
    requires
        0 <= k <= n,
        functions_after(secs, table, fdes, k) is Err,
    ensures
        functions_after(secs, table, fdes, n) == functions_after(secs, table, fdes, k),
    decreases n - k,
{
    if k < n {
        lemma_functions_after_err(secs, table, fdes, k, n - 1);
    }
}

/// `len` bytes from `addr` on lie inside the bytes of a section whose address
/// range holds `addr`.
pub open spec fn within_section(secs: Seq<SectionView>, addr: u64, len: nat) -> bool {
    exists|k: int|
        0 <= k < secs.len() && secs[k].address <= addr && addr < secs[k].address + secs[k].size && ((
        #[trigger] secs[k]).data matches Some(d) && addr - secs[k].address + len <= d.len())
}

proof fn lemma_functions_after_within(secs: Seq<SectionView>, table: Map<u64, Seq<char>>, fdes: Seq<Fde>, k: int)
    ensures
        functions_after(secs, table, fdes, k) matches Ok(m) ==> forall|n: Seq<char>| #[trigger] m.contains_key(n)
            ==> within_section(secs, m[n].0, m[n].1.len()),
    decreases k,
{
    if k > 0 {
        lemma_functions_after_within(secs, table, fdes, k - 1);
        let fde = fdes[k - 1];
        lemma_containing_section(secs, fde.begin, 0);
    }
}

/// Every function of a loaded program starts inside a section and ends inside that
/// section's bytes.
pub proof fn lemma_functions_within_sections(v: ObjectView)
    ensures
        program_of(v) matches Ok((_, _, m)) ==> forall|n: Seq<char>| #[trigger] m.contains_key(n)
            ==> within_section(v.sections, m[n].0, m[n].1.len()),
{
    let pointer_size: usize = if v.is_64 { 8 } else { 4 };
    if let Some(e) = eh_frame_index(v.sections, 0) {
        if let Some(eh) = v.sections[e].data {
            if let Ok(fdes) = spec_fdes(eh, pointer_size, v.sections[e].address) {
                let table = symbol_table(v.symbols, v.symbols.len() as int);
                lemma_functions_after_within(v.sections, table, fdes, fdes.len() as int);
            }
        }
    }
}

fn find_eh_frame(secs: &Vec<SectionData>) -> (r: Option<usize>)
    ensures
        r matches Some(k) ==> k < secs@.len(),
        ({
            let v = sections_view(secs@);
            match eh_frame_index(v, 0) {
                None => r is None,
                Some(k) => r matches Some(u) && u as int == k,
            }
        }),
{
    let ghost v = sections_view(secs@);
    proof {
        lemma_eh_frame_index(v, 0);
    }
    let name = String::from_str(".eh_frame");
    proof {
        reveal_strlit(".eh_frame");
        assert(name@ =~= eh_frame_name());
    }
    let mut k: usize = 0;
    while k < secs.len()
        invariant
            k <= secs@.len(),
            v == sections_view(secs@),
            name@ == eh_frame_name(),
            eh_frame_index(v, 0) matches Some(j) ==> 0 <= j < v.len(),
            eh_frame_index(v, k as int) == eh_frame_index(v, 0),
        decreases secs@.len() - k,
    {
        assert(v[k as int] == section_view(secs@[k as int]));
        if secs[k].name == name {
            return Some(k);
        }
        k = k + 1;
    }
    None
}

fn find_section(secs: &Vec<SectionData>, addr: u64) -> (r: Option<usize>)
    ensures
        r matches Some(k) ==> k < secs@.len(),
        ({
            let v = sections_view(secs@);
            match containing_section(v, addr, 0) {
                None => r is None,
                Some(k) => r matches Some(u) && u as int == k,
            }
        }),
{
    let ghost v = sections_view(secs@);
    proof {
        lemma_containing_section(v, addr, 0);
    }
    let mut k: usize = 0;
    while k < secs.len()
        invariant
            k <= secs@.len(),
            v == sections_view(secs@),
            containing_section(v, addr, 0) matches Some(j) ==> 0 <= j < v.len(),
            containing_section(v, addr, k as int) == containing_section(v, addr, 0),
        decreases secs@.len() - k,
    {
        assert(v[k as int] == section_view(secs@[k as int]));
        let s = &secs[k];
        if s.address <= addr && (addr - s.address) < s.size {
            return Some(k);
        }
        k = k + 1;
    }
    None
}

fn build_symbol_map(syms: &Vec<(u64, String)>) -> (r: HashMap<u64, String>)
    ensures
        same_symbols(r@, symbol_table(symbols_view(syms@), syms@.len() as int)),
{
    let ghost v = symbols_view(syms@);
    let mut m: HashMap<u64, String> = HashMap::new();
    let mut k: usize = 0;
    while k < syms.len()
        invariant
            k <= syms@.len(),
            v == symbols_view(syms@),
            same_symbols(m@, symbol_table(v, k as int)),
        decreases syms@.len() - k,
    {
        let (a, n) = (syms[k].0, syms[k].1.clone());
        assert(v[k as int] == (a, n@));
        m.insert(a, n);
        k = k + 1;
    }
    m
}

fn insert_function(
    fns: &mut Vec<(String, Function)>,
    index: &mut NameIndex,
    name: String,
    f: Function,
    m: Ghost<Map<Seq<char>, (u64, Seq<u8>)>>,
)
    requires
        represents(old(fns)@, m@),
        old(index).indexes(names_of(old(fns)@)),
    ensures
        represents(final(fns)@, m@.insert(name@, (f.address, f.content@))),
        final(index).indexes(names_of(final(fns)@)),
        forall|i: int| 0 <= i < final(fns)@.len() ==> (#[trigger] final(fns)@[i]) == (name, f) || exists|j: int|
            0 <= j < old(fns)@.len() && old(fns)@[j] == final(fns)@[i],
{
    let ghost m2 = m@.insert(name@, (f.address, f.content@));
    let ghost before = fns@;
    if let Some(i) = index.find(fns, &name) {
        {
            fns.set(i, (name, f));
            proof {
                assert(names_of(fns@) =~= names_of(before));
                assert forall|k: int, j: int| 0 <= k < j < fns@.len() implies (#[trigger] fns@[k]).0@ != (#[trigger] fns@[j]).0@ by {
                    assert(before[k].0@ != before[j].0@);
                }
                assert forall|k: int| 0 <= k < fns@.len() implies m2.contains_key((#[trigger] fns@[k]).0@) && m2[fns@[k].0@]
                    == (fns@[k].1.address, fns@[k].1.content@) by {
                    if k != i {
                        assert(before[k].0@ != before[i as int].0@);
                    }
                }
                assert forall|n: Seq<char>| #[trigger] m2.contains_key(n) implies exists|k: int| 0 <= k < fns@.len()
                    && (#[trigger] fns@[k]).0@ == n by {
                    if n != name@ {
                        let k = choose|k: int| 0 <= k < before.len() && (#[trigger] before[k]).0@ == n;
                        assert(fns@[k] == before[k]);
                    } else {
                        assert(fns@[i as int].0@ == n);
                    }
                }
                assert forall|k: int| 0 <= k < fns@.len() implies (#[trigger] fns@[k]) == (name, f) || exists|j: int|
                    0 <= j < before.len() && before[j] == fns@[k] by {
                    if k != i {
                        assert(before[k] == fns@[k]);
                    }
                }
            }
            return;
        }
    }
    let n = fns.len();
    index.add(name.as_str(), n, Ghost(names_of(before)));
    fns.push((name, f));
    assert(names_of(fns@) =~= names_of(before).push(name@));
    proof {
        let last = fns@.len() - 1;
        assert forall|k: int, j: int| 0 <= k < j < fns@.len() implies (#[trigger] fns@[k]).0@ != (#[trigger] fns@[j]).0@ by {
            if j < last {
                assert(before[k].0@ != before[j].0@);
            }
        }
        assert forall|k: int| 0 <= k < fns@.len() implies m2.contains_key((#[trigger] fns@[k]).0@) && m2[fns@[k].0@] == (
            fns@[k].1.address,
            fns@[k].1.content@,
        ) by {
            if k < last {
                assert(fns@[k] == before[k]);
            }
        }
        assert forall|n: Seq<char>| #[trigger] m2.contains_key(n) implies exists|k: int| 0 <= k < fns@.len() && (
        #[trigger] fns@[k]).0@ == n by {
            if n != name@ {
                let k = choose|k: int| 0 <= k < before.len() && (#[trigger] before[k]).0@ == n;
                assert(fns@[k] == before[k]);
            } else {
                assert(fns@[last].0@ == n);
            }
        }
        assert forall|k: int| 0 <= k < fns@.len() implies (#[trigger] fns@[k]) == (name, f) || exists|j: int|
            0 <= j < before.len() && before[j] == fns@[k] by {
            if k < last {
                assert(before[k] == fns@[k]);
            }
        }
    }
}

impl Program {
    /// Builds the program that an object image describes: its pointer size from
    /// the 64-bit flag, its symbols, and one function per FDE of `.eh_frame` whose
    /// start is a symbol.
    pub fn from_image(img: &ObjectImage) -> (r: Result<Program, LoadError>)
        ensures
            match (r, program_of(image_view(*img))) {
                (Ok(p), Ok(e)) => p.wf() && is_program(p, e),
                (Err(a), Err(b)) => a == b,
                _ => false,
            },
    {
        let ghost v = image_view(*img);
        let pointer_size: usize = if img.is_64 { 8 } else { 4 };
        let e = match find_eh_frame(&img.sections) {
            None => return Err(LoadError::MissingEhFrame),
            Some(e) => e,
        };
        let eh = &img.sections[e];
        assert(v.sections == sections_view(img.sections@));
        assert(v.sections[e as int] == section_view(*eh));
        assert(eh_frame_index(v.sections, 0) == Some(e as int));
        let eh_data = match &eh.data {
            None => {
                assert(v.sections[e as int].data is None);
                return Err(LoadError::MissingEhFrame);
            },
            Some(d) => d,
        };
        assert(v.sections[e as int].data == Some(eh_data@));
        let fdes = match get_fdes(eh_data.as_slice(), pointer_size, eh.address) {
            Err(err) => {
                assert(spec_fdes(eh_data@, pointer_size, v.sections[e as int].address) == Err::<Seq<Fde>, EhFrameError>(err));
                return Err(LoadError::EhFrame(err));
            },
            Ok(f) => f,
        };
        let symbol_map = build_symbol_map(&img.symbols);
        let ghost table = symbol_table(v.symbols, v.symbols.len() as int);
        assert(v.symbols =~= symbols_view(img.symbols@));
        let mut functions: Vec<(String, Function)> = Vec::new();
        let mut index = NameIndex::new();
        assert(names_of(functions@) =~= Seq::<Seq<char>>::empty());
        let ghost mut m: Map<Seq<char>, (u64, Seq<u8>)> = Map::empty();
        let ghost expected = match functions_after(v.sections, table, fdes@, fdes@.len() as int) {
            Err(err) => Err(err),
            Ok(m) => Ok((pointer_size, table, m)),
        };
        assert(program_of(v) == expected);
        let mut k: usize = 0;
        while k < fdes.len()
            invariant
                k <= fdes@.len(),
                v == image_view(*img),
                program_of(v) == expected,
                expected == match functions_after(v.sections, table, fdes@, fdes@.len() as int) {
                    Err(err) => Err(err),
                    Ok(m) => Ok((pointer_size, table, m)),
                },
                pointer_size == (if v.is_64 { 8usize } else { 4usize }),
                table == symbol_table(v.symbols, v.symbols.len() as int),
                same_symbols(symbol_map@, table),
                functions_after(v.sections, table, fdes@, k as int) == Ok::<Map<Seq<char>, (u64, Seq<u8>)>, LoadError>(m),
                represents(functions@, m),
                index.indexes(names_of(functions@)),
                forall|i: int| 0 <= i < functions@.len() ==> {
                    let (name, f) = #[trigger] functions@[i];
                    symbol_map@.contains_key(f.address) && symbol_map@[f.address]@ == name@
                },
            decreases fdes@.len() - k,
        {
            let fde = fdes[k];
            match symbol_map.get(&fde.begin) {
                None => {},
                Some(name) => {
                    assert(fdes@[k as int] == fde);
                    assert(table.contains_key(fde.begin));
                    let i = match find_section(&img.sections, fde.begin) {
                        None => {
                            proof {
                                lemma_functions_after_err(v.sections, table, fdes@, k + 1, fdes@.len() as int);
                            }
                            return Err(LoadError::MissingSection(fde.begin));
                        },
                        Some(i) => i,
                    };
                    proof {
                        lemma_containing_section(v.sections, fde.begin, 0);
                    }
                    let s = &img.sections[i];
                    assert(v.sections[i as int] == section_view(*s));
                    let d = match &s.data {
                        None => {
                            proof {
                                lemma_functions_after_err(v.sections, table, fdes@, k + 1, fdes@.len() as int);
                            }
                            return Err(LoadError::MissingSection(fde.begin));
                        },
                        Some(d) => d,
                    };
                    let off = fde.begin - s.address;
                    if off > d.len() as u64 || fde.length > d.len() as u64 - off {
                        proof {
                            lemma_functions_after_err(v.sections, table, fdes@, k + 1, fdes@.len() as int);
                        }
                        return Err(LoadError::MissingSection(fde.begin));
                    }
                    let start = off as usize;
                    let end = start + fde.length as usize;
                    let content = vstd::slice::slice_to_vec(vstd::slice::slice_subrange(d.as_slice(), start, end));
                    let f = Function { address: fde.begin, content };
                    let ghost old_functions = functions@;
                    let nm = name.clone();
                    let ghost entry = (nm, f);
                    insert_function(&mut functions, &mut index, nm, f, Ghost(m));
                    proof {
                        m = m.insert(entry.0@, (f.address, f.content@));
                        assert forall|i: int| 0 <= i < functions@.len() implies {
                            let (name, f) = #[trigger] functions@[i];
                            symbol_map@.contains_key(f.address) && symbol_map@[f.address]@ == name@
                        } by {
                            if functions@[i] != entry {
                                let j = choose|j: int| 0 <= j < old_functions.len() && old_functions[j] == functions@[i];
                                assert(old_functions[j] == functions@[i]);
                            }
                        }
                    }
                },
            }
            k = k + 1;
        }
        let p = Program { pointer_size, functions, symbol_map };
        proof {
            assert forall|i: int, j: int| 0 <= i < j < p.functions@.len()
                implies (#[trigger] p.functions@[i]).0@ != (#[trigger] p.functions@[j]).0@ by {
            }
        }
        Ok(p)
    }

    /// Loads the program in an object file's bytes.
    pub fn load(data: &[u8]) -> (r: Result<Program, LoadError>)
        ensures
            loaded_from(data@, r),
    {
        match read_object(data) {
            None => Err(LoadError::MalformedObject),
            Some(img) => Program::from_image(&img),
        }
    }
}
} // verus!
