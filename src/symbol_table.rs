//! The table from symbol names to addresses.
use vstd::prelude::*;
use vstd::hash_map::StringHashMap;

use crate::error::ErrorKind;

verus! {

/// The names that the architecture fixes, with their addresses: the sixteen
/// general-purpose registers, the four pointer registers, and the bases of
/// the screen and keyboard memory maps.
pub open spec fn predefined_list() -> Seq<(Seq<char>, usize)> {
    seq![
        ("R0"@, 0),
        ("R1"@, 1),
        ("R2"@, 2),
        ("R3"@, 3),
        ("R4"@, 4),
        ("R5"@, 5),
        ("R6"@, 6),
        ("R7"@, 7),
        ("R8"@, 8),
        ("R9"@, 9),
        ("R10"@, 10),
        ("R11"@, 11),
        ("R12"@, 12),
        ("R13"@, 13),
        ("R14"@, 14),
        ("R15"@, 15),
        ("SP"@, 0),
        ("LCL"@, 1),
        ("ARG"@, 2),
        ("THIS"@, 3),
        ("THAT"@, 4),
        ("SCREEN"@, 16384),
        ("KBD"@, 24576),
    ]
}

/// The map that a list of bindings gives when each name keeps its first
/// address.
pub open spec fn map_of(l: Seq<(Seq<char>, usize)>) -> Map<Seq<char>, usize>
    decreases l.len(),
{
    if l.len() == 0 {
        Map::empty()
    } else {
        let m = map_of(l.drop_last());
        if m.contains_key(l.last().0) {
            m
        } else {
            m.insert(l.last().0, l.last().1)
        }
    }
}

/// The predefined symbols.
pub open spec fn predefined() -> Map<Seq<char>, usize> {
    map_of(predefined_list())
}

/// In a list whose names are distinct, each name maps to its own address.
proof fn lemma_map_of_distinct(l: Seq<(Seq<char>, usize)>)
    requires
        forall|i: int, j: int| 0 <= i < j < l.len() ==> l[i].0 != l[j].0,
    ensures
        forall|k: int|
            0 <= k < l.len() ==> map_of(l).contains_key(#[trigger] l[k].0) && map_of(l)[l[k].0]
                == l[k].1,
        forall|n: Seq<char>|
            #[trigger] map_of(l).contains_key(n) ==> exists|k: int| 0 <= k < l.len() && l[k].0 == n,
    decreases l.len(),
{
    if l.len() > 0 {
        let prev = l.drop_last();
        lemma_map_of_distinct(prev);
        if map_of(prev).contains_key(l.last().0) {
            let k = choose|k: int| 0 <= k < prev.len() && prev[k].0 == l.last().0;
            assert(l[k].0 == l[l.len() - 1].0);
        }
        assert forall|n: Seq<char>| #[trigger] map_of(l).contains_key(n) implies exists|k: int|
            0 <= k < l.len() && l[k].0 == n by {
            if map_of(prev).contains_key(n) {
                let k = choose|k: int| 0 <= k < prev.len() && prev[k].0 == n;
                assert(l[k].0 == n);
            } else {
                assert(l[l.len() - 1].0 == n);
            }
        }
        assert forall|k: int| 0 <= k < l.len() implies map_of(l).contains_key(#[trigger] l[k].0)
            && map_of(l)[l[k].0] == l[k].1 by {
            if k < prev.len() {
                assert(prev[k] == l[k]);
                assert(l[k].0 != l.last().0);
            }
        }
    }
}

/// Each predefined name has its fixed address: `R0` to `R15` are 0 to 15,
/// `SP`, `LCL`, `ARG`, `THIS`, `THAT` are 0 to 4, `SCREEN` is 16384 and
/// `KBD` is 24576.
pub proof fn predefined_addresses()
    ensures
        forall|k: int|
            0 <= k < predefined_list().len() ==> predefined().contains_key(
                #[trigger] predefined_list()[k].0,
            ) && predefined()[predefined_list()[k].0] == predefined_list()[k].1,
{
    reveal_strlit("R0");
    reveal_strlit("R1");
    reveal_strlit("R2");
    reveal_strlit("R3");
    reveal_strlit("R4");
    reveal_strlit("R5");
    reveal_strlit("R6");
    reveal_strlit("R7");
    reveal_strlit("R8");
    reveal_strlit("R9");
    reveal_strlit("R10");
    reveal_strlit("R11");
    reveal_strlit("R12");
    reveal_strlit("R13");
    reveal_strlit("R14");
    reveal_strlit("R15");
    reveal_strlit("SP");
    reveal_strlit("LCL");
    reveal_strlit("ARG");
    reveal_strlit("THIS");
    reveal_strlit("THAT");
    reveal_strlit("SCREEN");
    reveal_strlit("KBD");
    let l = predefined_list();
    assert forall|i: int, j: int| 0 <= i < j < l.len() implies l[i].0 != l[j].0 by {
        if l[i].0 == l[j].0 {
            assert(l[i].0.len() == l[j].0.len());
            assert(l[i].0[0] == l[j].0[0]);
            assert(l[i].0[1] == l[j].0[1]);
            if l[i].0.len() > 2 {
                assert(l[i].0[2] == l[j].0[2]);
            }
        }
    }
    lemma_map_of_distinct(l);
}

/// Symbol names and their addresses. A name, once bound, keeps its address.
pub struct SymbolTable {
    pub symbols: StringHashMap<usize>,
}

impl View for SymbolTable {
    type V = Map<Seq<char>, usize>;

    open spec fn view(&self) -> Map<Seq<char>, usize> {
        self.symbols@
    }
}

impl SymbolTable {
    /// A table that holds the predefined symbols.
    pub fn new() -> (t: SymbolTable)
        ensures
            t@ == predefined(),
    {
        let mut t = SymbolTable { symbols: StringHashMap::new() };
        t.add_predefined_symbols();
        assert(t@ =~= predefined());
        t
    }

    /// Binds `name` to `address` unless it is bound already.
    fn install(&mut self, name: &str, address: usize)
        ensures
            final(self)@ == if old(self)@.contains_key(name@) {
                old(self)@
            } else {
                old(self)@.insert(name@, address)
            },
    {
        if !self.symbols.contains_key(name) {
            self.symbols.insert(name.to_owned(), address);
        }
    }

    /// Installs the predefined symbols; bindings already present are kept,
    /// so a second call changes nothing.
    pub fn add_predefined_symbols(&mut self)
        ensures
            final(self)@ == predefined().union_prefer_right(old(self)@),
    {
        let ghost t0 = self@;
        let defs: [(&str, usize); 23] = [
            ("R0", 0),
            ("R1", 1),
            ("R2", 2),
            ("R3", 3),
            ("R4", 4),
            ("R5", 5),
            ("R6", 6),
            ("R7", 7),
            ("R8", 8),
            ("R9", 9),
            ("R10", 10),
            ("R11", 11),
            ("R12", 12),
            ("R13", 13),
            ("R14", 14),
            ("R15", 15),
            ("SP", 0),
            ("LCL", 1),
            ("ARG", 2),
            ("THIS", 3),
            ("THAT", 4),
            ("SCREEN", 16384),
            ("KBD", 24576),
        ];
        assert(defs@.len() == predefined_list().len());
        let mut i: usize = 0;
        while i < 23
            invariant
                0 <= i <= 23,
                forall|k: int| 0 <= k < 23 ==> (#[trigger] defs@[k]).0@ == predefined_list()[k].0
                    && defs@[k].1 == predefined_list()[k].1,
                self@ == map_of(predefined_list().take(i as int)).union_prefer_right(t0),
            decreases 23 - i,
        {
            let ghost l = predefined_list().take(i + 1);
            assert(l.drop_last() =~= predefined_list().take(i as int));
            let (name, address) = defs[i];
            self.install(name, address);
            assert(self@ =~= map_of(l).union_prefer_right(t0));
            i = i + 1;
        }
        assert(predefined_list().take(23) =~= predefined_list());
    }

    /// Binds a name that is not bound yet.
    pub fn add_entry(&mut self, symbol: String, address: usize)
        requires
            !old(self)@.contains_key(symbol@),
        ensures
            final(self)@ == old(self)@.insert(symbol@, address),
    {
        self.symbols.insert(symbol, address);
    }

    pub fn contains(&self, symbol: &str) -> (r: bool)
        ensures
            r == self@.contains_key(symbol@),
    {
        self.symbols.contains_key(symbol)
    }

    /// The address of a bound name.
    pub fn get_address(&self, symbol: &str) -> (r: usize)
        requires
            self@.contains_key(symbol@),
        ensures
            r == self@[symbol@],
    {
        *self.symbols.get(symbol).unwrap()
    }

    /// The address of `symbol`, or `UnknownSymbol` where it is not bound.
    pub fn resolve(&self, symbol: &str) -> (r: Result<usize, ErrorKind>)
        ensures
            r == if self@.contains_key(symbol@) {
                Ok::<usize, ErrorKind>(self@[symbol@])
            } else {
                Err(ErrorKind::UnknownSymbol)
            },
    {
        match self.symbols.get(symbol) {
            Some(a) => Ok(*a),
            None => Err(ErrorKind::UnknownSymbol),
        }
    }
}

} // verus!
