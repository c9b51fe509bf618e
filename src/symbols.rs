//! Finding the real address of an intercepted library function: by dynamic lookup,
//! or, where that lookup leads back to the hook itself, through the library's ELF
//! dynamic symbol table and its load address.
use vstd::prelude::*;

use core::marker::PhantomData;

use crate::paths::{bytes_equal, SEPARATOR};
use vstd::string::{StrSliceExecFns, StringSliceAdditionalSpecFns};

verus! {

/// A function type together with the name of the symbol that implements it.
#[derive(Copy, Debug)]
pub struct NamedFunc<FnPtr> {
    _func: PhantomData<FnPtr>,
    name: &'static str,
}

impl<FnPtr> Clone for NamedFunc<FnPtr> {
    fn clone(&self) -> (r: Self)
        ensures
            r.spec_name() == self.spec_name(),
    {
        NamedFunc { _func: PhantomData, name: self.name }
    }
}

impl<FnPtr> NamedFunc<FnPtr> {
    pub closed spec fn spec_name(&self) -> &'static str {
        self.name
    }

    /// The symbol's name.
    pub fn name(&self) -> (r: &'static str)
        ensures
            r == self.spec_name(),
    {
        self.name
    }
}

/// The symbol `name`, typed as `_func` is.
pub fn named_func<FnPtr>(_func: FnPtr, name: &'static str) -> (r: NamedFunc<FnPtr>)
    ensures
        r.spec_name() == name,
{
    NamedFunc { _func: PhantomData, name }
}

/// How the address of a symbol is found; chosen once, then kept.
#[derive(Clone, Copy, Debug, PartialEq, Eq, Structural)]
pub enum Strategy {
    Undetermined,
    DynamicLookup,
    StaticTableLookup,
}

/// The strategy after a resolution in `s` where dynamic lookup gave `dynamic` and
/// the hook's own address is `witness`.
pub open spec fn next_strategy(s: Strategy, dynamic: u64, witness: u64) -> Strategy {
    match s {
        Strategy::Undetermined => if dynamic != witness {
            Strategy::DynamicLookup
        } else {
            Strategy::StaticTableLookup
        },
        _ => s,
    }
}

/// The strategy after resolutions that saw the dynamic lookups `lookups` in turn.
pub open spec fn strategy_after(s: Strategy, lookups: Seq<u64>, witness: u64) -> Strategy
    decreases lookups.len(),
{
    if lookups.len() == 0 {
        s
    } else {
        strategy_after(next_strategy(s, lookups[0], witness), lookups.drop_first(), witness)
    }
}

/// The address that a resolution in `s` returns.
pub open spec fn resolved_address(s: Strategy, dynamic: u64, witness: u64, from_table: u64) -> u64 {
    match s {
        Strategy::Undetermined => if dynamic != witness {
            dynamic
        } else {
            from_table
        },
        Strategy::DynamicLookup => dynamic,
        Strategy::StaticTableLookup => from_table,
    }
}

/// A symbol of an ELF dynamic symbol table: its name (none where the string table
/// holds none at its offset) and its recorded value.
pub type DynSymbol = (Option<Vec<u8>>, u64);

/// What goblin reads as the dynamic symbols of the ELF file `raw`: none where it
/// cannot parse the file.
pub uninterp spec fn elf_dynamic_symbols_of(raw: Seq<u8>) -> Option<Seq<(Option<Seq<u8>>, u64)>>;

/// Relies on goblin's `Elf::parse`, its `dynsyms` and `dynstrtab.get_at`: the
/// dynamic symbols of `raw` in table order, each with its name and `st_value`.
#[verifier::external_body]
fn elf_dynamic_symbols(raw: &[u8]) -> (r: Option<Vec<DynSymbol>>)
    ensures
        r.deep_view() == elf_dynamic_symbols_of(raw@),
{
    match goblin::elf::Elf::parse(raw) {
        Ok(elf) => Some(
            elf.dynsyms.iter().map(
                |s| (elf.dynstrtab.get_at(s.st_name).map(|n| n.as_bytes().to_vec()), s.st_value),
            ).collect(),
        ),
        Err(_) => None,
    }
}

/// A symbol's name as the table lookup compares it: a missing name is empty.
pub open spec fn symbol_name(n: Option<Seq<u8>>) -> Seq<u8> {
    match n {
        Some(s) => s,
        None => Seq::empty(),
    }
}

/// The value of the first symbol of `syms` named `name`.
pub open spec fn first_value(syms: Seq<(Option<Seq<u8>>, u64)>, name: Seq<u8>) -> Option<u64>
    decreases syms.len(),
{
    if syms.len() == 0 {
        None
    } else if symbol_name(syms[0].0) == name {
        Some(syms[0].1)
    } else {
        first_value(syms.drop_first(), name)
    }
}

/// The address of `name` from the symbol table: load base plus recorded value; 0
/// where the table is missing, holds no such symbol, or the sum overflows.
pub open spec fn table_address(base: u64, syms: Option<Seq<(Option<Seq<u8>>, u64)>>, name: Seq<u8>) -> u64 {
    match syms {
        Some(s) => match first_value(s, name) {
            Some(v) => if base + v <= u64::MAX {
                (base + v) as u64
            } else {
                0
            },
            None => 0,
        },
        None => 0,
    }
}

/// One mapping of the process's memory-mapping table.
#[derive(Clone, Debug)]
pub struct MappedRegion {
    pub start: u64,
    pub end: u64,
    /// The mapped file, for mappings of a file.
    pub path: Option<Vec<u8>>,
}

/// Where a library is mapped.
#[derive(Debug)]
pub struct MappedLibrary {
    pub base: u64,
    pub size: u64,
    pub path: Vec<u8>,
}

/// Whether `needle` occurs in `hay` at `i`.
pub open spec fn occurs_at(hay: Seq<u8>, needle: Seq<u8>, i: int) -> bool {
    0 <= i && i + needle.len() <= hay.len() && hay.subrange(i, i + needle.len()) == needle
}

/// Whether `needle` occurs in `hay`.
pub open spec fn contains_spec(hay: Seq<u8>, needle: Seq<u8>) -> bool {
    exists|i: int| occurs_at(hay, needle, i)
}

/// Whether `needle` occurs in `hay` at `i`.
fn occurs_at_exec(hay: &[u8], needle: &[u8], i: usize) -> (r: bool)
    requires
        i + needle@.len() <= hay@.len(),
    ensures
        r == occurs_at(hay@, needle@, i as int),
{
    let n = hay.len();
    let mut j: usize = 0;
    while j < needle.len()
        invariant
            n == hay@.len(),
            i + needle@.len() <= hay@.len(),
            0 <= j <= needle@.len(),
            forall|m: int| 0 <= m < j ==> hay@[i + m] == needle@[m],
        decreases needle@.len() - j,
    {
        if hay[i + j] != needle[j] {
            assert(hay@.subrange(i as int, i + needle@.len())[j as int] != needle@[j as int]);
            return false;
        }
        j = j + 1;
    }
    assert(hay@.subrange(i as int, i + needle@.len()) =~= needle@);
    true
}

/// Whether `needle` occurs in `hay`.
pub fn contains(hay: &[u8], needle: &[u8]) -> (r: bool)
    ensures
        r == contains_spec(hay@, needle@),
{
    if needle.len() == 0 {
        assert(hay@.subrange(0, 0) =~= needle@);
        assert(occurs_at(hay@, needle@, 0));
        return true;
    }
    if needle.len() > hay.len() {
        return false;
    }
    let n = hay.len();
    let last = n - needle.len();
    let mut i: usize = 0;
    while i <= last
        invariant
            n == hay@.len(),
            last == hay@.len() - needle@.len(),
            last < hay@.len(),
            0 <= i <= last + 1,
            forall|m: int| 0 <= m < i ==> !occurs_at(hay@, needle@, m),
        decreases last + 1 - i,
    {
        if occurs_at_exec(hay, needle, i) {
            return true;
        }
        i = i + 1;
    }
    assert forall|m: int| !occurs_at(hay@, needle@, m) by {
        if occurs_at(hay@, needle@, m) {
            assert(0 <= m <= last);
        }
    }
    false
}

/// A region maps the library `name`: its file's path holds `/` then `name`.
pub open spec fn maps_library(r: MappedRegion, name: Seq<u8>) -> bool {
    r.path matches Some(p) && contains_spec(p@, seq![SEPARATOR] + name)
}

/// The first region of `maps` that maps the library `name`: its start, its length
/// and its file; none where no region maps it.
pub fn find_mapped_library(maps: &[MappedRegion], name: &[u8]) -> (r: Option<MappedLibrary>)
    ensures
        match r {
            Some(lib) => exists|j: int|
                0 <= j < maps@.len() && maps_library(#[trigger] maps@[j], name@) && (forall|m: int|
                    0 <= m < j ==> !maps_library(#[trigger] maps@[m], name@)) && lib.base
                    == maps@[j].start && lib.path@ == maps@[j].path->0@ && lib.size == (if maps@[j].end
                    >= maps@[j].start {
                    (maps@[j].end - maps@[j].start) as u64
                } else {
                    0
                }),
            None => forall|m: int| 0 <= m < maps@.len() ==> !maps_library(#[trigger] maps@[m], name@),
        },
{
    let mut needle: Vec<u8> = Vec::new();
    needle.push(SEPARATOR);
    let mut k: usize = 0;
    while k < name.len()
        invariant
            0 <= k <= name@.len(),
            needle@ == seq![SEPARATOR] + name@.subrange(0, k as int),
        decreases name@.len() - k,
    {
        needle.push(name[k]);
        k = k + 1;
        assert(needle@ =~= seq![SEPARATOR] + name@.subrange(0, k as int));
    }
    assert(name@.subrange(0, name@.len() as int) =~= name@);
    let mut j: usize = 0;
    while j < maps.len()
        invariant
            needle@ == seq![SEPARATOR] + name@,
            0 <= j <= maps@.len(),
            forall|m: int| 0 <= m < j ==> !maps_library(#[trigger] maps@[m], name@),
        decreases maps@.len() - j,
    {
        let region = &maps[j];
        if let Some(p) = &region.path {
            if contains(p.as_slice(), needle.as_slice()) {
                let size = if region.end >= region.start {
                    region.end - region.start
                } else {
                    0
                };
                let path = crate::paths::copy_range(p.as_slice(), 0, p.len());
                assert(path@ =~= p@);
                assert(maps_library(maps@[j as int], name@));
                return Some(MappedLibrary { base: region.start, size, path });
            }
        }
        j = j + 1;
    }
    None
}

/// A library as it is mapped into this process: its load address and its file's
/// bytes (empty where the library is not mapped or its file cannot be read).
#[derive(Debug)]
pub struct Lib {
    filename: &'static str,
    base: u64,
    raw: Vec<u8>,
}

impl Lib {
    pub closed spec fn spec_filename(&self) -> &'static str {
        self.filename
    }

    pub closed spec fn spec_base(&self) -> u64 {
        self.base
    }

    pub closed spec fn spec_raw(&self) -> Seq<u8> {
        self.raw@
    }

    /// The library `filename`, loaded at `base`, whose file holds `raw`.
    pub fn new(filename: &'static str, base: u64, raw: Vec<u8>) -> (r: Lib)
        ensures
            r.spec_filename() == filename,
            r.spec_base() == base,
            r.spec_raw() == raw@,
    {
        Lib { filename, base, raw }
    }

    pub fn filename(&self) -> (r: &'static str)
        ensures
            r == self.spec_filename(),
    {
        self.filename
    }

    /// The size of the library's file.
    pub fn size(&self) -> (r: usize)
        ensures
            r == self.spec_raw().len(),
    {
        self.raw.len()
    }

    /// A handle on the library, no symbol's strategy yet determined, its dynamic
    /// symbols read from the file.
    pub fn handle(&self) -> (r: LibHandle)
        ensures
            forall|name: Seq<u8>| #[trigger] r.spec_strategy(name) == Strategy::Undetermined,
            r.spec_base() == self.spec_base(),
            r.spec_symbols() == elf_dynamic_symbols_of(self.spec_raw()),
    {
        LibHandle {
            strategies: Vec::new(),
            base: self.base,
            symbols: elf_dynamic_symbols(self.raw.as_slice()),
        }
    }
}

/// The strategy kept for one symbol.
#[derive(Debug)]
struct SymbolStrategy {
    name: Vec<u8>,
    strategy: Strategy,
}

/// No symbol name is kept twice.
spec fn unique_names(s: Seq<SymbolStrategy>) -> bool {
    forall|j1: int, j2: int|
        0 <= j1 < s.len() && 0 <= j2 < s.len() && j1 != j2 ==> (#[trigger] s[j1]).name@ != (
        #[trigger] s[j2]).name@
}

/// The strategy kept for `name`; undetermined where none is kept.
spec fn strategy_in(s: Seq<SymbolStrategy>, name: Seq<u8>) -> Strategy {
    if exists|j: int| 0 <= j < s.len() && (#[trigger] s[j]).name@ == name {
        s[choose|j: int| 0 <= j < s.len() && (#[trigger] s[j]).name@ == name].strategy
    } else {
        Strategy::Undetermined
    }
}

proof fn lemma_strategy_in(s: Seq<SymbolStrategy>, j: int)
    requires
        unique_names(s),
        0 <= j < s.len(),
    ensures
        strategy_in(s, s[j].name@) == s[j].strategy,
{
    let c = choose|c: int| 0 <= c < s.len() && (#[trigger] s[c]).name@ == s[j].name@;
    if c != j {
        assert(s[c].name@ != s[j].name@);
    }
}

/// The address a resolution hands out: none for the address 0, which must never
/// be called.
pub open spec fn usable(addr: u64) -> Option<u64> {
    if addr == 0 {
        None
    } else {
        Some(addr)
    }
}

/// Resolves symbols of one library; remembers, for each symbol, the strategy that
/// works for it.
#[derive(Debug)]
pub struct LibHandle {
    strategies: Vec<SymbolStrategy>,
    base: u64,
    symbols: Option<Vec<DynSymbol>>,
}

impl LibHandle {
    #[verifier::type_invariant]
    spec fn wf(&self) -> bool {
        unique_names(self.strategies@)
    }

    /// The strategy kept for the symbol `name`.
    pub closed spec fn spec_strategy(&self, name: Seq<u8>) -> Strategy {
        strategy_in(self.strategies@, name)
    }

    pub closed spec fn spec_base(&self) -> u64 {
        self.base
    }

    pub closed spec fn spec_symbols(&self) -> Option<Seq<(Option<Seq<u8>>, u64)>> {
        self.symbols.deep_view()
    }

    /// Whether the ELF file was parsed.
    pub fn is_parsed(&self) -> (r: bool)
        ensures
            r == self.spec_symbols() is Some,
    {
        self.symbols.is_some()
    }

    /// Where the strategy of `name` is kept.
    fn find_strategy(&self, name: &[u8]) -> (r: Option<usize>)
        ensures
            r matches Some(i) ==> i < self.strategies@.len() && self.strategies@[i as int].name@ == name@,
            r is None ==> forall|j: int|
                0 <= j < self.strategies@.len() ==> (#[trigger] self.strategies@[j]).name@ != name@,
    {
        let mut j: usize = 0;
        while j < self.strategies.len()
            invariant
                0 <= j <= self.strategies@.len(),
                forall|m: int| 0 <= m < j ==> (#[trigger] self.strategies@[m]).name@ != name@,
            decreases self.strategies@.len() - j,
        {
            if bytes_equal(self.strategies[j].name.as_slice(), name) {
                return Some(j);
            }
            j = j + 1;
        }
        None
    }

    /// The strategy kept for the symbol `name`.
    pub fn strategy(&self, name: &str) -> (r: Strategy)
        ensures
            r == self.spec_strategy(name.spec_bytes()),
    {
        proof {
            use_type_invariant(self);
        }
        let bytes = name.as_bytes_vec();
        match self.find_strategy(bytes.as_slice()) {
            Some(i) => {
                proof {
                    lemma_strategy_in(self.strategies@, i as int);
                }
                self.strategies[i].strategy
            },
            None => Strategy::Undetermined,
        }
    }

    /// Whether a resolution of `name` will look at a dynamic lookup's result: not
    /// once the symbol table is that symbol's strategy.
    pub fn needs_dynamic_lookup(&self, name: &str) -> (r: bool)
        ensures
            r == (self.spec_strategy(name.spec_bytes()) != Strategy::StaticTableLookup),
    {
        self.strategy(name) != Strategy::StaticTableLookup
    }

    /// The address of `name` from the symbol table (see `table_address`).
    pub fn table_symbol_address(&self, name: &[u8]) -> (r: u64)
        ensures
            r == table_address(self.spec_base(), self.spec_symbols(), name@),
    {
        match &self.symbols {
            None => 0,
            Some(syms) => {
                let ghost s = syms.deep_view();
                assert(s.subrange(0, s.len() as int) =~= s);
                assert(self.spec_symbols() == Some(s));
                let mut i: usize = 0;
                while i < syms.len()
                    invariant
                        self.spec_symbols() == Some(s),
                        s == syms.deep_view(),
                        0 <= i <= s.len(),
                        first_value(s, name@) == first_value(s.subrange(i as int, s.len() as int), name@),
                    decreases s.len() - i,
                {
                    let ghost rest = s.subrange(i as int, s.len() as int);
                    assert(s[i as int] == syms@[i as int].deep_view());
                    assert(rest[0] == s[i as int]);
                    assert(rest.drop_first() =~= s.subrange(i + 1, s.len() as int));
                    let matched = match &syms[i].0 {
                        Some(n) => bytes_equal(n.as_slice(), name),
                        None => name.len() == 0,
                    };
                    proof {
                        match &syms@[i as int].0 {
                            Some(n) => {
                                assert(n.deep_view() =~= n@);
                            },
                            None => {
                                if name@.len() == 0 {
                                    assert(name@ =~= Seq::<u8>::empty());
                                }
                            },
                        }
                        assert(matched == (symbol_name(rest[0].0) == name@));
                    }
                    if matched {
                        let v = syms[i].1;
                        if v <= u64::MAX - self.base {
                            return self.base + v;
                        } else {
                            return 0;
                        }
                    }
                    i = i + 1;
                }
                0
            },
        }
    }

    /// The address of the symbol `nf`, given what dynamic lookup of it returned
    /// (ignored once the table is its strategy) and its hook's own address. An
    /// undetermined strategy becomes dynamic lookup where the two addresses
    /// differ, the symbol table where they are equal, and stays so; the strategies
    /// of other symbols are left as they are. None where the resolved address is
    /// 0, which means that the symbol was not found.
    pub fn sym_addr<FnPtr>(&mut self, nf: &NamedFunc<FnPtr>, dynamic: u64, witness: u64) -> (r: Option<u64>)
        ensures
            final(self).spec_strategy(nf.spec_name().spec_bytes()) == next_strategy(
                old(self).spec_strategy(nf.spec_name().spec_bytes()),
                dynamic,
                witness,
            ),
            forall|other: Seq<u8>|
                other != nf.spec_name().spec_bytes() ==> #[trigger] final(self).spec_strategy(other)
                    == old(self).spec_strategy(other),
            final(self).spec_base() == old(self).spec_base(),
            final(self).spec_symbols() == old(self).spec_symbols(),
            r == usable(
                resolved_address(
                    old(self).spec_strategy(nf.spec_name().spec_bytes()),
                    dynamic,
                    witness,
                    table_address(old(self).spec_base(), old(self).spec_symbols(), nf.spec_name().spec_bytes()),
                ),
            ),
    {
        proof {
            use_type_invariant(&*self);
        }
        let name = nf.name().as_bytes_vec();
        let ghost k = name@;
        let ghost old_s = self.strategies@;
        let found = self.find_strategy(name.as_slice());
        let current = match found {
            Some(i) => {
                proof {
                    lemma_strategy_in(old_s, i as int);
                }
                self.strategies[i].strategy
            },
            None => Strategy::Undetermined,
        };
        let next = match current {
            Strategy::Undetermined => if dynamic != witness {
                Strategy::DynamicLookup
            } else {
                Strategy::StaticTableLookup
            },
            _ => current,
        };
        let addr = match current {
            Strategy::Undetermined => if dynamic != witness {
                dynamic
            } else {
                self.table_symbol_address(name.as_slice())
            },
            Strategy::DynamicLookup => dynamic,
            Strategy::StaticTableLookup => self.table_symbol_address(name.as_slice()),
        };
        let mut entries: Vec<SymbolStrategy> = Vec::new();
        core::mem::swap(&mut entries, &mut self.strategies);
        let ghost pos: int;
        match found {
            Some(i) => {
                entries.set(i, SymbolStrategy { name, strategy: next });
                proof {
                    pos = i as int;
                }
            },
            None => {
                entries.push(SymbolStrategy { name, strategy: next });
                proof {
                    pos = old_s.len() as int;
                }
            },
        }
        proof {
            let s = entries@;
            assert(s[pos].name@ == k);
            assert forall|j: int| 0 <= j < s.len() && j != pos implies #[trigger] s[j] == old_s[j] by {}
            assert(unique_names(s)) by {
                assert forall|j1: int, j2: int|
                    0 <= j1 < s.len() && 0 <= j2 < s.len() && j1 != j2 implies (#[trigger] s[j1]).name@
                    != (#[trigger] s[j2]).name@ by {
                    if j1 != pos && j2 != pos {
                        assert(old_s[j1].name@ != old_s[j2].name@);
                    } else if j1 == pos {
                        assert(s[j2] == old_s[j2]);
                    } else {
                        assert(s[j1] == old_s[j1]);
                    }
                }
            }
            lemma_strategy_in(s, pos);
            assert forall|other: Seq<u8>| other != k implies #[trigger] strategy_in(s, other) == strategy_in(
                old_s,
                other,
            ) by {
                if exists|j: int| 0 <= j < s.len() && (#[trigger] s[j]).name@ == other {
                    let j = choose|j: int| 0 <= j < s.len() && (#[trigger] s[j]).name@ == other;
                    assert(j != pos);
                    assert(s[j] == old_s[j]);
                    lemma_strategy_in(s, j);
                    lemma_strategy_in(old_s, j);
                } else {
                    assert forall|j: int| 0 <= j < old_s.len() implies (#[trigger] old_s[j]).name@ != other by {
                        if j != pos {
                            assert(s[j] == old_s[j]);
                        }
                    }
                }
            }
        }
        self.strategies = entries;
        if addr == 0 {
            None
        } else {
            Some(addr)
        }
    }
}

/// Once dynamic lookup of a symbol has led back to the hook, the symbol table is
/// the strategy for good: every later resolution keeps it, whatever the lookups
/// return, and racing first resolutions that each saw an undetermined or an
/// already settled strategy all leave it there.
pub proof fn law_static_strategy_is_sticky(lookups: Seq<u64>, witness: u64, seen: Strategy)
    requires
        lookups.len() >= 1,
        lookups[0] == witness,
        seen == Strategy::Undetermined || seen == Strategy::StaticTableLookup,
    ensures
        forall|k: int|
            1 <= k <= lookups.len() ==> strategy_after(
                Strategy::Undetermined,
                #[trigger] lookups.take(k),
                witness,
            ) == Strategy::StaticTableLookup,
        next_strategy(seen, witness, witness) == Strategy::StaticTableLookup,
{
    assert forall|k: int| 1 <= k <= lookups.len() implies strategy_after(
        Strategy::Undetermined,
        #[trigger] lookups.take(k),
        witness,
    ) == Strategy::StaticTableLookup by {
        let t = lookups.take(k);
        assert(t[0] == witness);
        lemma_table_strategy_stays(t.drop_first(), witness);
    }
}

/// From the table strategy, any lookups leave the strategy where it is.
proof fn lemma_table_strategy_stays(lookups: Seq<u64>, witness: u64)
    ensures
        strategy_after(Strategy::StaticTableLookup, lookups, witness) == Strategy::StaticTableLookup,
    decreases lookups.len(),
{
    if lookups.len() > 0 {
        lemma_table_strategy_stays(lookups.drop_first(), witness);
    }
}

} // verus!
