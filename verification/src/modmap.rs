//! The modules and functions of the instrumented application.

use crate::error::Error;
use crate::sizetype_handlers::ArgSizeTypeRef;
use crate::text::hex;
use crate::text::hexadecimal;
use vstd::prelude::*;

verus! {

/// The number of a module.
#[derive(Debug, Clone, Copy, PartialEq, Eq, Structural, Hash)]
pub struct IntegralModId(pub u32);

/// The number of a function within its module.
#[derive(Debug, Clone, Copy, PartialEq, Eq, Structural, Hash)]
pub struct IntegralFnId(pub u32);

/// A function, by its number and that of its module.
#[derive(Debug, Clone, Copy, PartialEq, Eq, Structural, Hash)]
pub struct NumFunUid {
    pub function_id: IntegralFnId,
    pub module_id: IntegralModId,
}

impl IntegralModId {
    /// The number in eight hexadecimal digits.
    pub fn hex_string(&self) -> (text: String)
        ensures
            text@ == hex(self.0 as nat, 8),
    {
        hexadecimal(self.0, 8)
    }
}

impl IntegralFnId {
    /// The number in eight hexadecimal digits.
    pub fn hex_string(&self) -> (text: String)
        ensures
            text@ == hex(self.0 as nat, 8),
    {
        hexadecimal(self.0, 8)
    }
}

impl From<(IntegralModId, IntegralFnId)> for NumFunUid {
    fn from(ids: (IntegralModId, IntegralFnId)) -> (r: Self) {
        NumFunUid { function_id: ids.1, module_id: ids.0 }
    }
}

impl vstd::std_specs::convert::FromSpecImpl<(IntegralModId, IntegralFnId)> for NumFunUid {
    open spec fn obeys_from_spec() -> bool {
        true
    }

    open spec fn from_spec(ids: (IntegralModId, IntegralFnId)) -> Self {
        NumFunUid { function_id: ids.1, module_id: ids.0 }
    }
}

/// A module and its name.
pub struct ModuleEntry {
    pub id: IntegralModId,
    pub name: String,
}

/// A function, its name and how the sizes of its arguments are determined.
pub struct FunctionEntry {
    pub uid: NumFunUid,
    pub name: String,
    pub args: Vec<ArgSizeTypeRef>,
}

/// What is known of a function.
#[verifier::ext_equal]
pub struct FunctionModel {
    pub name: Seq<char>,
    pub args: Seq<ArgSizeTypeRef>,
}

impl FunctionEntry {
    /// What is known of the function.
    pub open spec fn known(&self) -> FunctionModel {
        FunctionModel { name: self.name@, args: self.args@ }
    }
}

/// The known modules and functions. No number is given twice.
pub struct ExtModuleMap {
    modules: Vec<ModuleEntry>,
    functions: Vec<FunctionEntry>,
}

impl ExtModuleMap {
    /// No module and no function occurs twice, and every function's module is known.
    pub closed spec fn wf(&self) -> bool {
        &&& forall|i: int, j: int|
            0 <= i < j < self.modules@.len() ==> #[trigger] self.modules@[i].id
                != #[trigger] self.modules@[j].id
        &&& forall|i: int, j: int|
            0 <= i < j < self.functions@.len() ==> #[trigger] self.functions@[i].uid
                != #[trigger] self.functions@[j].uid
        &&& forall|i: int|
            0 <= i < self.functions@.len() ==> self.knows_module(
                (#[trigger] self.functions@[i]).uid.module_id,
            )
    }

    /// The modules, in the order in which they were added.
    pub closed spec fn module_ids(&self) -> Seq<IntegralModId> {
        self.modules@.map_values(|m: ModuleEntry| m.id)
    }

    /// The functions, in the order in which they were added.
    pub closed spec fn function_uids(&self) -> Seq<NumFunUid> {
        self.functions@.map_values(|f: FunctionEntry| f.uid)
    }

    /// The module is known.
    pub open spec fn knows_module(&self, id: IntegralModId) -> bool {
        self.module_ids().contains(id)
    }

    /// The function is known.
    pub open spec fn knows_function(&self, uid: NumFunUid) -> bool {
        self.function_uids().contains(uid)
    }

    /// The name of a known module.
    pub closed spec fn module_name(&self, id: IntegralModId) -> Seq<char> {
        self.modules@[self.module_ids().index_of(id)].name@
    }

    /// What is known of a known function.
    pub closed spec fn function(&self, uid: NumFunUid) -> FunctionModel {
        self.functions@[self.function_uids().index_of(uid)].known()
    }

    /// The module of a known function is known.
    pub proof fn lemma_functions_have_modules(&self, uid: NumFunUid)
        requires
            self.wf(),
            self.knows_function(uid),
        ensures
            self.knows_module(uid.module_id),
    {
        let i = self.function_uids().index_of(uid);
        assert(self.functions@[i].uid == uid);
    }

    /// No module and no function occurs twice.
    pub proof fn lemma_nothing_occurs_twice(&self)
        requires
            self.wf(),
        ensures
            self.module_ids().no_duplicates(),
            self.function_uids().no_duplicates(),
    {
        assert forall|i: int, j: int|
            0 <= i < self.module_ids().len() && 0 <= j < self.module_ids().len() && i != j implies
            self.module_ids()[i] != self.module_ids()[j] by {
            let (a, b) = if i < j {
                (i, j)
            } else {
                (j, i)
            };
            assert(self.modules@[a].id != self.modules@[b].id);
        }
        assert forall|i: int, j: int|
            0 <= i < self.function_uids().len() && 0 <= j < self.function_uids().len() && i
                != j implies self.function_uids()[i] != self.function_uids()[j] by {
            let (a, b) = if i < j {
                (i, j)
            } else {
                (j, i)
            };
            assert(self.functions@[a].uid != self.functions@[b].uid);
        }
    }

    /// A map without modules.
    pub fn new() -> (r: Self)
        ensures
            r.wf(),
            r.module_ids() == Seq::<IntegralModId>::empty(),
            r.function_uids() == Seq::<NumFunUid>::empty(),
    {
        let r = ExtModuleMap { modules: Vec::new(), functions: Vec::new() };
        proof {
            assert(r.module_ids() =~= Seq::<IntegralModId>::empty());
            assert(r.function_uids() =~= Seq::<NumFunUid>::empty());
        }
        r
    }

    fn find_module(&self, id: IntegralModId) -> (r: Option<usize>)
        ensures
            r is Some <==> self.knows_module(id),
            r matches Some(i) ==> i < self.modules@.len() && self.modules@[i as int].id == id,
            self.wf() ==> (r matches Some(i) ==> i == self.module_ids().index_of(id)),
    {
        let mut i: usize = 0;
        while i < self.modules.len()
            invariant
                i <= self.modules@.len(),
                forall|j: int| 0 <= j < i ==> (#[trigger] self.modules@[j]).id != id,
            decreases self.modules@.len() - i,
        {
            if self.modules[i].id == id {
                proof {
                    assert(self.module_ids()[i as int] == id);
                    let k = self.module_ids().index_of(id);
                    assert(self.modules@[k].id == id);
                }
                return Some(i);
            }
            i += 1;
        }
        proof {
            assert forall|j: int| 0 <= j < self.module_ids().len() implies self.module_ids()[j]
                != id by {
                assert(self.modules@[j].id != id);
            }
        }
        None
    }

    fn find_function(&self, uid: NumFunUid) -> (r: Option<usize>)
        ensures
            r is Some <==> self.knows_function(uid),
            r matches Some(i) ==> i < self.functions@.len() && self.functions@[i as int].uid == uid,
            self.wf() ==> (r matches Some(i) ==> i == self.function_uids().index_of(uid)),
    {
        let mut i: usize = 0;
        while i < self.functions.len()
            invariant
                i <= self.functions@.len(),
                forall|j: int| 0 <= j < i ==> (#[trigger] self.functions@[j]).uid != uid,
            decreases self.functions@.len() - i,
        {
            if self.functions[i].uid == uid {
                proof {
                    assert(self.function_uids()[i as int] == uid);
                    let k = self.function_uids().index_of(uid);
                    assert(self.functions@[k].uid == uid);
                }
                return Some(i);
            }
            i += 1;
        }
        proof {
            assert forall|j: int| 0 <= j < self.function_uids().len() implies self.function_uids()[j]
                != uid by {
                assert(self.functions@[j].uid != uid);
            }
        }
        None
    }

    /// Adds a module. Refused if its number is taken.
    pub fn add_module(&mut self, id: IntegralModId, name: String) -> (r: Result<(), Error>)
        requires
            old(self).wf(),
        ensures
            final(self).wf(),
            r == if old(self).knows_module(id) {
                Err::<(), Error>(Error::DuplicateModule(id))
            } else {
                Ok(())
            },
            r is Err ==> *final(self) == *old(self),
            r is Ok ==> {
                &&& final(self).module_ids() == old(self).module_ids().push(id)
                &&& final(self).module_name(id) == name@
                &&& forall|m: IntegralModId| #[trigger]
                    old(self).knows_module(m) ==> final(self).module_name(m) == old(
                        self,
                    ).module_name(m)
                &&& final(self).function_uids() == old(self).function_uids()
                &&& forall|f: NumFunUid| #[trigger]
                    old(self).knows_function(f) ==> final(self).function(f) == old(self).function(f)
            },
    {
        if self.find_module(id).is_some() {
            return Err(Error::DuplicateModule(id));
        }
        let ghost before = *self;
        self.modules.push(ModuleEntry { id, name });
        proof {
            assert(self.module_ids() =~= before.module_ids().push(id));
            assert forall|m: IntegralModId| #[trigger] before.knows_module(m) implies {
                &&& self.knows_module(m)
                &&& self.module_name(m) == before.module_name(m)
            } by {
                let k = before.module_ids().index_of(m);
                assert(before.module_ids()[k] == m && before.modules@[k].id == m);
                assert(self.module_ids()[k] == m);
                let j = self.module_ids().index_of(m);
                assert(self.modules@[j].id == m);
                assert(m != id);
            }
            let last = self.modules@.len() - 1;
            assert(self.module_ids()[last] == id);
            let j = self.module_ids().index_of(id);
            assert(self.modules@[j].id == id);
            assert(before.modules@ =~= self.modules@.drop_last());
            assert forall|i: int| 0 <= i < before.modules@.len() implies (
            #[trigger] before.modules@[i]).id != id by {
                assert(before.module_ids()[i] == before.modules@[i].id);
            }
            assert(self.wf()) by {
                assert forall|i: int| 0 <= i < self.functions@.len() implies self.knows_module(
                    (#[trigger] self.functions@[i]).uid.module_id,
                ) by {
                    assert(before.knows_module(before.functions@[i].uid.module_id));
                }
            }
        }
        Ok(())
    }

    /// Adds a function. Refused if its module is not known or its number is taken.
    pub fn add_function(
        &mut self,
        uid: NumFunUid,
        name: String,
        args: Vec<ArgSizeTypeRef>,
    ) -> (r: Result<(), Error>)
        requires
            old(self).wf(),
        ensures
            final(self).wf(),
            r == if !old(self).knows_module(uid.module_id) {
                Err::<(), Error>(Error::UnknownModule(uid.module_id))
            } else if old(self).knows_function(uid) {
                Err(Error::DuplicateFunction(uid))
            } else {
                Ok(())
            },
            r is Err ==> *final(self) == *old(self),
            r is Ok ==> {
                &&& final(self).module_ids() == old(self).module_ids()
                &&& forall|m: IntegralModId| #[trigger]
                    old(self).knows_module(m) ==> final(self).module_name(m) == old(
                        self,
                    ).module_name(m)
                &&& final(self).function_uids() == old(self).function_uids().push(uid)
                &&& final(self).function(uid) == (FunctionModel { name: name@, args: args@ })
                &&& forall|f: NumFunUid| #[trigger]
                    old(self).knows_function(f) ==> final(self).function(f) == old(self).function(f)
            },
    {
        if self.find_module(uid.module_id).is_none() {
            return Err(Error::UnknownModule(uid.module_id));
        }
        if self.find_function(uid).is_some() {
            return Err(Error::DuplicateFunction(uid));
        }
        let ghost before = *self;
        self.functions.push(FunctionEntry { uid, name, args });
        proof {
            assert(self.function_uids() =~= before.function_uids().push(uid));
            assert(self.module_ids() =~= before.module_ids());
            assert forall|f: NumFunUid| #[trigger] before.knows_function(f) implies self.function(f)
                == before.function(f) by {
                let k = before.function_uids().index_of(f);
                assert(before.function_uids()[k] == f && before.functions@[k].uid == f);
                assert(self.function_uids()[k] == f);
                let j = self.function_uids().index_of(f);
                assert(self.functions@[j].uid == f);
                assert(f != uid);
            }
            let last = self.functions@.len() - 1;
            assert(self.function_uids()[last] == uid);
            let j = self.function_uids().index_of(uid);
            assert(self.functions@[j].uid == uid);
            assert(before.functions@ =~= self.functions@.drop_last());
            assert forall|i: int| 0 <= i < before.functions@.len() implies (
            #[trigger] before.functions@[i]).uid != uid by {
                assert(before.function_uids()[i] == before.functions@[i].uid);
            }
            assert forall|i: int| 0 <= i < self.functions@.len() implies self.knows_module(
                (#[trigger] self.functions@[i]).uid.module_id,
            ) by {
                if i < before.functions@.len() {
                    assert(before.knows_module(before.functions@[i].uid.module_id));
                }
            }
        }
        Ok(())
    }

    /// The name of a module, if it is known.
    pub fn get_module_string_id(&self, id: IntegralModId) -> (r: Option<&String>)
        requires
            self.wf(),
        ensures
            r is Some <==> self.knows_module(id),
            r matches Some(name) ==> name@ == self.module_name(id),
    {
        match self.find_module(id) {
            Some(i) => Some(&self.modules[i].name),
            None => None,
        }
    }

    /// The name of a function, if it is known.
    pub fn get_function_name(&self, uid: NumFunUid) -> (r: Option<&String>)
        requires
            self.wf(),
        ensures
            r is Some <==> self.knows_function(uid),
            r matches Some(name) ==> name@ == self.function(uid).name,
    {
        match self.find_function(uid) {
            Some(i) => Some(&self.functions[i].name),
            None => None,
        }
    }

    /// How the sizes of a function's arguments are determined, if it is known.
    pub fn get_function_arg_size_descriptors(&self, uid: NumFunUid) -> (r: Option<
        &Vec<ArgSizeTypeRef>,
    >)
        requires
            self.wf(),
        ensures
            r is Some <==> self.knows_function(uid),
            r matches Some(args) ==> args@ == self.function(uid).args,
    {
        match self.find_function(uid) {
            Some(i) => Some(&self.functions[i].args),
            None => None,
        }
    }

    /// The modules, in the order in which they were added.
    pub fn modules(&self) -> (r: Vec<IntegralModId>)
        ensures
            r@ == self.module_ids(),
    {
        let mut r: Vec<IntegralModId> = Vec::new();
        let mut i: usize = 0;
        while i < self.modules.len()
            invariant
                i <= self.modules@.len(),
                r@ =~= self.module_ids().subrange(0, i as int),
            decreases self.modules@.len() - i,
        {
            r.push(self.modules[i].id);
            i += 1;
        }
        proof {
            assert(r@ =~= self.module_ids());
        }
        r
    }

    /// The functions of a module, in the order in which they were added, if the module is
    /// known.
    pub fn functions(&self, module: IntegralModId) -> (r: Option<Vec<IntegralFnId>>)
        ensures
            r is Some <==> self.knows_module(module),
            r matches Some(ids) ==> ids@ == self.function_uids().filter(
                |f: NumFunUid| f.module_id == module,
            ).map_values(|f: NumFunUid| f.function_id),
    {
        if self.find_module(module).is_none() {
            return None;
        }
        let mut r: Vec<IntegralFnId> = Vec::new();
        let mut i: usize = 0;
        let ghost of_module = |f: NumFunUid| f.module_id == module;
        let ghost number = |f: NumFunUid| f.function_id;
        proof {
            reveal(Seq::filter);
            assert(self.function_uids().subrange(0, 0) =~= Seq::<NumFunUid>::empty());
            assert(r@ =~= self.function_uids().subrange(0, 0).filter(of_module).map_values(number));
        }
        while i < self.functions.len()
            invariant
                i <= self.functions@.len(),
                of_module == (|f: NumFunUid| f.module_id == module),
                number == (|f: NumFunUid| f.function_id),
                r@ =~= self.function_uids().subrange(0, i as int).filter(of_module).map_values(
                    number,
                ),
            decreases self.functions@.len() - i,
        {
            proof {
                reveal(Seq::filter);
                let upto = self.function_uids().subrange(0, i + 1);
                assert(upto.drop_last() =~= self.function_uids().subrange(0, i as int));
                assert(upto.last() == self.functions@[i as int].uid);
            }
            if self.functions[i].uid.module_id == module {
                r.push(self.functions[i].uid.function_id);
            }
            i += 1;
        }
        proof {
            assert(self.function_uids().subrange(0, i as int) =~= self.function_uids());
        }
        Some(r)
    }

    /// Keeps the functions of the selection and drops the others. Refused, with the map
    /// unchanged, if a function of the selection is not known.
    pub fn mask_include(&mut self, selection: &[NumFunUid]) -> (r: Result<(), Error>)
        requires
            old(self).wf(),
        ensures
            final(self).wf(),
            r is Ok <==> forall|i: int|
                0 <= i < selection@.len() ==> old(self).knows_function(#[trigger] selection@[i]),
            r matches Err(e) ==> *final(self) == *old(self) && exists|i: int|
                0 <= i < selection@.len() && !old(self).knows_function(#[trigger] selection@[i])
                    && e == Error::UnknownFunction(selection@[i]) && forall|j: int|
                    0 <= j < i ==> old(self).knows_function(#[trigger] selection@[j]),
            r is Ok ==> {
                &&& final(self).module_ids() == old(self).module_ids()
                &&& forall|m: IntegralModId| #[trigger]
                    old(self).knows_module(m) ==> final(self).module_name(m) == old(
                        self,
                    ).module_name(m)
                &&& final(self).function_uids() == old(self).function_uids().filter(
                    |f: NumFunUid| selection@.contains(f),
                )
                &&& forall|f: NumFunUid| #[trigger]
                    final(self).knows_function(f) ==> final(self).function(f) == old(self).function(
                        f,
                    )
            },
            r is Ok ==> masked_to(*old(self), *final(self), selection@),
    {
        let mut i: usize = 0;
        while i < selection.len()
            invariant
                self.wf(),
                *self == *old(self),
                i <= selection@.len(),
                forall|j: int| 0 <= j < i ==> self.knows_function(#[trigger] selection@[j]),
            decreases selection@.len() - i,
        {
            if self.find_function(selection[i]).is_none() {
                return Err(Error::UnknownFunction(selection[i]));
            }
            i += 1;
        }
        let ghost before = *self;
        let ghost entries = self.functions@;
        let ghost chosen = |e: FunctionEntry| selection@.contains(e.uid);
        let ghost mut done: int = 0;
        let mut kept: usize = 0;
        proof {
            assert(entries.subrange(0, 0).filter(chosen) =~= Seq::<FunctionEntry>::empty()) by {
                reveal(Seq::filter);
            }
            assert(self.functions@ =~= entries.subrange(0, 0).filter(chosen) + entries.subrange(
                0,
                entries.len() as int,
            ));
        }
        while kept < self.functions.len()
            invariant
                0 <= done <= entries.len(),
                chosen == (|e: FunctionEntry| selection@.contains(e.uid)),
                self.modules == before.modules,
                kept == entries.subrange(0, done).filter(chosen).len(),
                self.functions@ == entries.subrange(0, done).filter(chosen) + entries.subrange(
                    done,
                    entries.len() as int,
                ),
            decreases entries.len() - done,
        {
            let uid = self.functions[kept].uid;
            proof {
                reveal(Seq::filter);
                let upto = entries.subrange(0, done + 1);
                assert(upto.drop_last() =~= entries.subrange(0, done));
                assert(upto.last() == entries[done]);
                assert(self.functions@[kept as int] == entries[done]);
            }
            let ghost rest = entries.subrange(done + 1, entries.len() as int);
            if contains_uid(selection, uid) {
                kept += 1;
                proof {
                    done = done + 1;
                    assert(self.functions@ =~= entries.subrange(0, done).filter(chosen) + rest);
                }
            } else {
                let _ = self.functions.remove(kept);
                proof {
                    done = done + 1;
                    assert(self.functions@ =~= entries.subrange(0, done).filter(chosen) + rest);
                }
            }
        }
        proof {
            assert(entries.subrange(done, entries.len() as int).len() == 0);
            assert(entries.subrange(0, done) =~= entries);
            assert(self.functions@ =~= entries.filter(chosen));
            lemma_masked(before, *self, selection@);
        }
        Ok(())
    }
}

/// The map holds what another one holds of the selected functions, and all modules.
pub open spec fn masked_to(
    before: ExtModuleMap,
    after: ExtModuleMap,
    selection: Seq<NumFunUid>,
) -> bool {
    &&& after.module_ids() == before.module_ids()
    &&& forall|m: IntegralModId| #[trigger]
        before.knows_module(m) ==> after.module_name(m) == before.module_name(m)
    &&& after.function_uids() == before.function_uids().filter(
        |f: NumFunUid| selection.contains(f),
    )
    &&& forall|f: NumFunUid| #[trigger]
        after.knows_function(f) ==> after.function(f) == before.function(f)
}

/// The selection decides what stays: a function is known afterwards exactly if it was known and is
/// selected, and then as it was. All modules stay, with their names.
pub proof fn law_selected_functions_stay(
    before: ExtModuleMap,
    after: ExtModuleMap,
    selection: Seq<NumFunUid>,
    f: NumFunUid,
    m: IntegralModId,
)
    requires
        masked_to(before, after, selection),
    ensures
        after.knows_function(f) <==> before.knows_function(f) && selection.contains(f),
        after.knows_function(f) ==> after.function(f).name == before.function(f).name
            && after.function(f).args == before.function(f).args,
        after.knows_module(m) <==> before.knows_module(m),
        before.knows_module(m) ==> after.module_name(m) == before.module_name(m),
{
    let chosen = |g: NumFunUid| selection.contains(g);
    let (all, kept) = (before.function_uids(), after.function_uids());
    if kept.contains(f) {
        let i = kept.index_of(f);
        all.lemma_filter_pred(chosen, i);
        lemma_filter_order(all, chosen);
        let k = choose|k: int| 0 <= k < all.len() && all[k] == all.filter(chosen)[i];
        assert(all[k] == f);
    }
    if all.contains(f) && selection.contains(f) {
        all.lemma_filter_contains(chosen, all.index_of(f));
    }
}

/// Whether a function is in the selection.
fn contains_uid(selection: &[NumFunUid], uid: NumFunUid) -> (b: bool)
    ensures
        b == selection@.contains(uid),
{
    let mut i: usize = 0;
    while i < selection.len()
        invariant
            i <= selection@.len(),
            forall|j: int| 0 <= j < i ==> selection@[j] != uid,
        decreases selection@.len() - i,
    {
        if selection[i] == uid {
            return true;
        }
        i += 1;
    }
    false
}

/// The uids of the kept entries are the kept uids.
proof fn lemma_filter_uids(entries: Seq<FunctionEntry>, selection: Seq<NumFunUid>)
    ensures
        entries.filter(|e: FunctionEntry| selection.contains(e.uid)).map_values(
            |e: FunctionEntry| e.uid,
        ) == entries.map_values(|e: FunctionEntry| e.uid).filter(
            |f: NumFunUid| selection.contains(f),
        ),
    decreases entries.len(),
{
    reveal(Seq::filter);
    let chosen = |e: FunctionEntry| selection.contains(e.uid);
    let chosen_uid = |f: NumFunUid| selection.contains(f);
    let uid = |e: FunctionEntry| e.uid;
    if entries.len() > 0 {
        lemma_filter_uids(entries.drop_last(), selection);
        assert(entries.map_values(uid).drop_last() =~= entries.drop_last().map_values(uid));
        assert(entries.map_values(uid).last() == entries.last().uid);
        assert(entries.filter(chosen).map_values(uid) =~= entries.map_values(uid).filter(
            chosen_uid,
        ));
    } else {
        assert(entries.filter(chosen).map_values(uid) =~= entries.map_values(uid).filter(
            chosen_uid,
        ));
    }
}

/// Each kept entry stands in the list that it was kept from, in the same order.
proof fn lemma_filter_order<A>(s: Seq<A>, p: spec_fn(A) -> bool)
    ensures
        forall|i: int, j: int|
            0 <= i < j < s.filter(p).len() ==> exists|k: int, l: int|
                0 <= k < l < s.len() && s[k] == #[trigger] s.filter(p)[i] && s[l]
                    == #[trigger] s.filter(p)[j],
        forall|i: int|
            0 <= i < s.filter(p).len() ==> exists|k: int|
                0 <= k < s.len() && s[k] == #[trigger] s.filter(p)[i],
    decreases s.len(),
{
    reveal(Seq::filter);
    if s.len() > 0 {
        let front = s.drop_last();
        lemma_filter_order(front, p);
        assert forall|i: int| 0 <= i < s.filter(p).len() implies exists|k: int|
            0 <= k < s.len() && s[k] == #[trigger] s.filter(p)[i] by {
            if i < front.filter(p).len() {
                let k = choose|k: int| 0 <= k < front.len() && front[k] == front.filter(p)[i];
                assert(s[k] == s.filter(p)[i]);
            } else {
                assert(s[s.len() - 1] == s.filter(p)[i]);
            }
        }
        assert forall|i: int, j: int| 0 <= i < j < s.filter(p).len() implies exists|k: int, l: int|
            0 <= k < l < s.len() && s[k] == #[trigger] s.filter(p)[i] && s[l]
                == #[trigger] s.filter(p)[j] by {
            if j < front.filter(p).len() {
                let (k, l) = choose|k: int, l: int|
                    0 <= k < l < front.len() && front[k] == front.filter(p)[i] && front[l]
                        == front.filter(p)[j];
                assert(s[k] == s.filter(p)[i] && s[l] == s.filter(p)[j]);
            } else {
                let k = choose|k: int| 0 <= k < front.len() && front[k] == front.filter(p)[i];
                assert(s[k] == s.filter(p)[i] && s[s.len() - 1] == s.filter(p)[j]);
            }
        }
    }
}

proof fn lemma_masked(before: ExtModuleMap, after: ExtModuleMap, selection: Seq<NumFunUid>)
    requires
        before.wf(),
        after.modules == before.modules,
        after.functions@ == before.functions@.filter(
            |e: FunctionEntry| selection.contains(e.uid),
        ),
    ensures
        after.wf(),
        after.module_ids() == before.module_ids(),
        forall|m: IntegralModId| #[trigger]
            before.knows_module(m) ==> after.module_name(m) == before.module_name(m),
        after.function_uids() == before.function_uids().filter(
            |f: NumFunUid| selection.contains(f),
        ),
        forall|f: NumFunUid| #[trigger]
            after.knows_function(f) ==> after.function(f) == before.function(f),
{
    let entries = before.functions@;
    let chosen = |e: FunctionEntry| selection.contains(e.uid);
    lemma_filter_uids(entries, selection);
    lemma_filter_order(entries, chosen);
    assert forall|i: int, j: int| 0 <= i < j < after.functions@.len() implies (
    #[trigger] after.functions@[i]).uid != (#[trigger] after.functions@[j]).uid by {
        let (k, l) = choose|k: int, l: int|
            0 <= k < l < entries.len() && entries[k] == entries.filter(chosen)[i] && entries[l]
                == entries.filter(chosen)[j];
        assert(before.functions@[k].uid != before.functions@[l].uid);
    }
    assert forall|i: int| 0 <= i < after.functions@.len() implies after.knows_module(
        (#[trigger] after.functions@[i]).uid.module_id,
    ) by {
        let k = choose|k: int| 0 <= k < entries.len() && entries[k] == entries.filter(chosen)[i];
        assert(before.knows_module(before.functions@[k].uid.module_id));
    }
    assert forall|f: NumFunUid| #[trigger] after.knows_function(f) implies after.function(f)
        == before.function(f) by {
        let i = after.function_uids().index_of(f);
        assert(after.function_uids()[i] == f && after.functions@[i].uid == f);
        let k = choose|k: int| 0 <= k < entries.len() && entries[k] == entries.filter(chosen)[i];
        assert(before.function_uids()[k] == f);
        let l = before.function_uids().index_of(f);
        assert(before.function_uids()[l] == f && before.functions@[l].uid == f);
        assert(l == k);
    }
}

} // verus!
