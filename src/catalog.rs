use vstd::prelude::*;

use crate::address::{address_of, parse_address};
use crate::errors::{AddressParseError, S7Error};
use crate::types::{DataType, RegAddress, Register};

verus! {

/// What a catalog holds of a register besides its name.
pub open spec fn entry_of(r: Register) -> (DataType, RegAddress) {
    (r.data_type, r.addr)
}

/// The table that a list of registers makes, a later register taking the
/// place of an earlier one of the same name.
pub open spec fn map_of(regs: Seq<Register>) -> Map<Seq<char>, (DataType, RegAddress)>
    decreases regs.len(),
{
    if regs.len() == 0 {
        Map::empty()
    } else {
        map_of(regs.drop_last()).insert(regs.last().name@, entry_of(regs.last()))
    }
}

spec fn names_unique(regs: Seq<Register>) -> bool {
    forall|i: int, j: int|
        0 <= i < regs.len() && 0 <= j < regs.len() && i != j ==> #[trigger] regs[i].name@
            != #[trigger] regs[j].name@
}

proof fn lemma_map_of_dom(regs: Seq<Register>, k: Seq<char>)
    ensures
        map_of(regs).contains_key(k) <==> exists|i: int|
            0 <= i < regs.len() && #[trigger] regs[i].name@ == k,
    decreases regs.len(),
{
    if regs.len() > 0 {
        let init = regs.drop_last();
        lemma_map_of_dom(init, k);
        if map_of(regs).contains_key(k) && k != regs.last().name@ {
            let i = choose|i: int| 0 <= i < init.len() && #[trigger] init[i].name@ == k;
            assert(regs[i].name@ == k);
        }
        if exists|i: int| 0 <= i < regs.len() && #[trigger] regs[i].name@ == k {
            let i = choose|i: int| 0 <= i < regs.len() && #[trigger] regs[i].name@ == k;
            if i < regs.len() - 1 {
                assert(init[i].name@ == k);
            }
        }
    }
}

proof fn lemma_map_of_value(regs: Seq<Register>, i: int)
    requires
        names_unique(regs),
        0 <= i < regs.len(),
    ensures
        map_of(regs).contains_key(regs[i].name@),
        map_of(regs)[regs[i].name@] == entry_of(regs[i]),
    decreases regs.len(),
{
    let init = regs.drop_last();
    if i < regs.len() - 1 {
        assert(init[i] == regs[i]);
        assert(names_unique(init));
        lemma_map_of_value(init, i);
        assert(regs[i].name@ != regs[regs.len() - 1].name@);
    }
}

proof fn lemma_map_of_len(regs: Seq<Register>)
    requires
        names_unique(regs),
    ensures
        map_of(regs).dom().finite(),
        map_of(regs).len() == regs.len(),
    decreases regs.len(),
{
    if regs.len() > 0 {
        let init = regs.drop_last();
        assert(names_unique(init));
        lemma_map_of_len(init);
        lemma_map_of_dom(init, regs.last().name@);
        if map_of(init).contains_key(regs.last().name@) {
            let i = choose|i: int| 0 <= i < init.len() && #[trigger] init[i].name@ == regs.last().name@;
            assert(regs[i].name@ == regs[regs.len() - 1].name@);
        }
    }
}

proof fn lemma_map_of_update(regs: Seq<Register>, i: int, r: Register)
    requires
        names_unique(regs),
        0 <= i < regs.len(),
        regs[i].name@ == r.name@,
    ensures
        names_unique(regs.update(i, r)),
        map_of(regs.update(i, r)) == map_of(regs).insert(r.name@, entry_of(r)),
{
    let next = regs.update(i, r);
    assert(names_unique(next)) by {
        assert forall|a: int, b: int|
            0 <= a < next.len() && 0 <= b < next.len() && a != b implies #[trigger] next[a].name@
            != #[trigger] next[b].name@ by {
            assert(regs[a].name@ != regs[b].name@);
        }
    }
    let m = map_of(regs).insert(r.name@, entry_of(r));
    assert forall|k: Seq<char>| #[trigger] map_of(next).contains_key(k) <==> m.contains_key(k) by {
        lemma_map_of_dom(next, k);
        lemma_map_of_dom(regs, k);
        if exists|j: int| 0 <= j < regs.len() && #[trigger] regs[j].name@ == k {
            let j = choose|j: int| 0 <= j < regs.len() && #[trigger] regs[j].name@ == k;
            assert(next[j].name@ == k);
        }
        if exists|j: int| 0 <= j < next.len() && #[trigger] next[j].name@ == k {
            let j = choose|j: int| 0 <= j < next.len() && #[trigger] next[j].name@ == k;
            assert(regs[j].name@ == k);
        }
    }
    assert forall|k: Seq<char>| #[trigger] map_of(next).contains_key(k) implies map_of(next)[k]
        == m[k] by {
        lemma_map_of_dom(next, k);
        let j = choose|j: int| 0 <= j < next.len() && #[trigger] next[j].name@ == k;
        lemma_map_of_value(next, j);
        if j != i {
            lemma_map_of_value(regs, j);
        }
    }
    assert(map_of(next) =~= m);
}

/// The registers known for a device session, by name. Names are unique, and
/// every register's address kind fits its data type.
#[derive(Debug)]
pub struct Catalog {
    regs: Vec<Register>,
}

impl View for Catalog {
    type V = Map<Seq<char>, (DataType, RegAddress)>;

    closed spec fn view(&self) -> Map<Seq<char>, (DataType, RegAddress)> {
        map_of(self.regs@)
    }
}

impl Catalog {
    #[verifier::type_invariant]
    spec fn well_formed(&self) -> bool {
        &&& names_unique(self.regs@)
        &&& forall|i: int| 0 <= i < self.regs@.len() ==> (#[trigger] self.regs@[i]).is_consistent()
    }

    /// A catalog with no register.
    pub fn new() -> (r: Catalog)
        ensures
            r@ == Map::<Seq<char>, (DataType, RegAddress)>::empty(),
    {
        Catalog { regs: Vec::new() }
    }

    /// Adds `reg`, in place of the register of the same name if there is one.
    pub fn insert(&mut self, reg: Register)
        requires
            reg.is_consistent(),
        ensures
            final(self)@ == old(self)@.insert(reg.name@, entry_of(reg)),
    {
        proof {
            use_type_invariant(&*self);
        }
        let mut regs: Vec<Register> = Vec::new();
        std::mem::swap(&mut regs, &mut self.regs);
        let ghost before = regs@;
        let mut i: usize = 0;
        while i < regs.len()
            invariant
                regs@ == before,
                map_of(before) == old(self)@,
                names_unique(before),
                forall|j: int| 0 <= j < before.len() ==> (#[trigger] before[j]).is_consistent(),
                reg.is_consistent(),
                i <= regs.len(),
                forall|j: int| 0 <= j < i ==> (#[trigger] regs@[j]).name@ != reg.name@,
            decreases regs.len() - i,
        {
            if regs[i].name == reg.name {
                proof {
                    lemma_map_of_update(before, i as int, reg);
                }
                regs[i] = reg;
                self.regs = regs;
                return;
            }
            i = i + 1;
        }
        assert(regs@.push(reg).drop_last() =~= regs@);
        assert(names_unique(regs@.push(reg))) by {
            let next = regs@.push(reg);
            assert forall|a: int, b: int|
                0 <= a < next.len() && 0 <= b < next.len() && a != b implies #[trigger] next[a].name@
                != #[trigger] next[b].name@ by {
                if a < regs@.len() && b < regs@.len() {
                    assert(before[a].name@ != before[b].name@);
                }
            }
        }
        regs.push(reg);
        self.regs = regs;
    }

    /// The register named `name`, if the catalog has one.
    pub fn get(&self, name: &str) -> (r: Option<&Register>)
        ensures
            r is Some <==> self@.contains_key(name@),
            r matches Some(g) ==> g.name@ == name@ && entry_of(*g) == self@[name@]
                && g.is_consistent(),
    {
        proof {
            use_type_invariant(self);
            lemma_map_of_dom(self.regs@, name@);
        }
        let key = name.to_owned();
        let mut i: usize = 0;
        while i < self.regs.len()
            invariant
                i <= self.regs.len(),
                key@ == name@,
                names_unique(self.regs@),
                forall|j: int| 0 <= j < self.regs@.len() ==> (#[trigger] self.regs@[j]).is_consistent(),
                forall|j: int| 0 <= j < i ==> (#[trigger] self.regs@[j]).name@ != name@,
            decreases self.regs.len() - i,
        {
            if self.regs[i].name == key {
                proof {
                    lemma_map_of_value(self.regs@, i as int);
                }
                return Some(&self.regs[i]);
            }
            i = i + 1;
        }
        None
    }

    /// The register named `name`; a name the catalog lacks is an error.
    pub fn lookup(&self, name: &str) -> (r: Result<&Register, S7Error>)
        ensures
            r is Ok <==> self@.contains_key(name@),
            r matches Ok(g) ==> g.name@ == name@ && entry_of(*g) == self@[name@]
                && g.is_consistent(),
            r matches Err(e) ==> e == S7Error::RegisterDoesNotExistsError,
    {
        match self.get(name) {
            Some(g) => Ok(g),
            None => Err(S7Error::RegisterDoesNotExistsError),
        }
    }

    /// How many registers the catalog holds.
    pub fn len(&self) -> (r: usize)
        ensures
            r == self@.len(),
    {
        proof {
            use_type_invariant(self);
            lemma_map_of_len(self.regs@);
        }
        self.regs.len()
    }

    /// Every register of the catalog, each once.
    pub fn registers(&self) -> (r: &Vec<Register>)
        ensures
            r@.len() == self@.len(),
            forall|i: int|
                0 <= i < r@.len() ==> self@.contains_key(#[trigger] r@[i].name@) && self@[r@[i].name@]
                    == entry_of(r@[i]) && r@[i].is_consistent(),
            forall|k: Seq<char>|
                self@.contains_key(k) ==> exists|i: int| 0 <= i < r@.len() && #[trigger] r@[i].name@ == k,
    {
        proof {
            use_type_invariant(self);
            lemma_map_of_len(self.regs@);
            assert forall|i: int| 0 <= i < self.regs@.len() implies self@.contains_key(
                #[trigger] self.regs@[i].name@,
            ) && self@[self.regs@[i].name@] == entry_of(self.regs@[i]) by {
                lemma_map_of_value(self.regs@, i);
            }
            assert forall|k: Seq<char>| self@.contains_key(k) implies exists|i: int|
                0 <= i < self.regs@.len() && #[trigger] self.regs@[i].name@ == k by {
                lemma_map_of_dom(self.regs@, k);
            }
        }
        &self.regs
    }
}

/// One entry of a definition file: a register's name, the text of its
/// address, and its data type.
#[derive(Debug, Clone)]
pub struct RegisterDef {
    pub name: String,
    pub id: String,
    pub data_type: DataType,
}

/// Whether the address text of every definition spells an address for its
/// data type.
pub open spec fn all_spelled(defs: Seq<RegisterDef>) -> bool {
    forall|i: int|
        0 <= i < defs.len() ==> (#[trigger] address_of(defs[i].id@, defs[i].data_type)) is Some
}

/// Whether `i` is the first definition whose address text spells no address
/// for its data type.
pub open spec fn first_unspelled(defs: Seq<RegisterDef>, i: int) -> bool {
    &&& 0 <= i < defs.len()
    &&& address_of(defs[i].id@, defs[i].data_type) is None
    &&& all_spelled(defs.take(i))
}

/// The table that well-spelled definitions make, a later definition taking
/// the place of an earlier one of the same name.
pub open spec fn catalog_of(defs: Seq<RegisterDef>) -> Map<Seq<char>, (DataType, RegAddress)>
    decreases defs.len(),
{
    if defs.len() == 0 {
        Map::empty()
    } else {
        let d = defs.last();
        catalog_of(defs.drop_last()).insert(
            d.name@,
            (d.data_type, address_of(d.id@, d.data_type).unwrap()),
        )
    }
}

/// Builds the catalog of a list of definitions. The build fails on the
/// first definition whose address text does not follow the grammar of its
/// data type, and names that definition; no definition is skipped.
pub fn build_catalog(defs: &[RegisterDef]) -> (r: Result<Catalog, AddressParseError>)
    ensures
        r is Ok <==> all_spelled(defs@),
        r matches Ok(c) ==> c@ == catalog_of(defs@),
        r matches Err(e) ==> exists|i: int|
            first_unspelled(defs@, i) && e.name@ == #[trigger] defs@[i].name@ && e.id@
                == defs@[i].id@,
{
    let mut catalog = Catalog::new();
    let mut i: usize = 0;
    assert(defs@.take(0) =~= Seq::<RegisterDef>::empty());
    while i < defs.len()
        invariant
            i <= defs.len(),
            all_spelled(defs@.take(i as int)),
            catalog@ == catalog_of(defs@.take(i as int)),
        decreases defs.len() - i,
    {
        let d = &defs[i];
        match parse_address(d.id.as_str(), d.data_type) {
            Some(addr) => {
                let reg = Register { data_type: d.data_type, name: d.name.clone(), addr };
                catalog.insert(reg);
                assert(defs@.take(i + 1).drop_last() =~= defs@.take(i as int));
                assert(all_spelled(defs@.take(i + 1))) by {
                    assert forall|j: int| 0 <= j < i + 1 implies (#[trigger] address_of(
                        defs@.take(i + 1)[j].id@,
                        defs@.take(i + 1)[j].data_type,
                    )) is Some by {
                        if j < i {
                            assert(defs@.take(i as int)[j] == defs@.take(i + 1)[j]);
                        }
                    }
                }
            },
            None => {
                assert(first_unspelled(defs@, i as int));
                assert(!all_spelled(defs@)) by {
                    assert(address_of(defs@[i as int].id@, defs@[i as int].data_type) is None);
                }
                let e = AddressParseError { name: d.name.clone(), id: d.id.clone() };
                assert(e.name@ == defs@[i as int].name@ && e.id@ == defs@[i as int].id@);
                return Err(e);
            },
        }
        i = i + 1;
    }
    assert(defs@.take(defs@.len() as int) =~= defs@);
    Ok(catalog)
}

} // verus!
