//! The tests that are to be run.

use crate::modmap::NumFunUid;
use crate::stages::test_protocol::CallIndexT;
use crate::stages::test_protocol::PacketIndexT;
use crate::stages::test_protocol::ThreadLidT;
use crate::text::copy_texts;
use crate::text::dec;
use crate::text::decimal;
use crate::text::same_texts;
use crate::text::texts;
use std::collections::HashMap;
use vstd::prelude::*;

verus! {

/// How a test is run.
#[derive(Debug, Clone, Copy, PartialEq, Eq, Structural)]
pub enum TestingMode {
    Testing,
    MTCompatTesting,
    /// whether a checkpoint is to be made
    CheckpointedTesting(bool),
}

/// A length of time.
#[derive(Debug, Clone, Copy, PartialEq, Eq, Structural)]
pub struct TimeLimit {
    pub secs: u64,
    pub nanos: u32,
}

/// A test.
#[derive(Debug, Clone, Copy, PartialEq, Eq, Structural)]
pub struct TestRegisryItem {
    pub uid: NumFunUid,
    pub call_index: CallIndexT,
    pub packet_index: PacketIndexT,
    pub thread_lid: ThreadLidT,
    pub thread_count: u32,
    pub test_count: u32,
    pub timeout_test: TimeLimit,
    pub timeout_process: Option<TimeLimit>,
    pub mode: TestingMode,
}

/// What tells the test apart from other tests of its function: thread, call and packet.
pub open spec fn test_id_text(thread: nat, call: nat, packet: nat) -> Seq<char> {
    dec(thread) + "-"@ + dec(call) + "-"@ + dec(packet)
}

impl TestRegisryItem {
    /// The number of the call, counted from one.
    pub fn target_call_number(&self) -> (n: u32)
        requires
            self.call_index.0 < u32::MAX,
        ensures
            n == self.call_index.0 + 1,
    {
        self.call_index.0 + 1
    }

    /// The whole seconds of the time limit, as far as sixteen bits hold them.
    pub fn test_timeout_s(&self) -> (s: u16)
        ensures
            s == self.timeout_test.secs % 65536,
    {
        (self.timeout_test.secs % 65536) as u16
    }

    /// Whether the children of the test's process are ended with it.
    pub fn terminate_child(&self) -> (b: bool)
        ensures
            b == (self.mode != TestingMode::MTCompatTesting),
    {
        !matches!(self.mode, TestingMode::MTCompatTesting)
    }

    /// What tells the test apart from other tests of its function.
    pub fn id(&self) -> (text: String)
        ensures
            text@ == test_id_text(
                self.thread_lid.0 as nat,
                self.call_index.0 as nat,
                self.packet_index.0 as nat,
            ),
    {
        decimal(self.thread_lid.0).concat("-").concat(
            decimal(self.call_index.0 as u64).as_str(),
        ).concat("-").concat(decimal(self.packet_index.0).as_str())
    }
}

/// The number of a registered test.
#[derive(PartialEq, Eq, Structural, Hash, Debug, Clone, Copy)]
pub struct TestID(u64);

impl View for TestID {
    type V = u64;

    closed spec fn view(&self) -> u64 {
        self.0
    }
}

/// A registered test and the command line that runs it.
#[verifier::ext_equal]
pub struct RegisteredTest {
    pub item: TestRegisryItem,
    pub cmdline: Seq<Seq<char>>,
}

/// What is registered: the tests by their numbers, the last number that was given, and the
/// different command lines.
#[verifier::ext_equal]
pub struct RegistryModel {
    pub tests: Map<u64, RegisteredTest>,
    pub last: u64,
    pub cmds: Seq<Seq<Seq<char>>>,
}

/// The tests that are registered, by their numbers.
pub struct TestRegistry {
    auto_increment: u64,
    map: HashMap<u64, TestRegisryItem>,
    cmd_map: HashMap<u64, usize>,
    cmds: Vec<Vec<String>>,
}

/// The texts of some command lines.
pub open spec fn cmds_model(cmds: Seq<Vec<String>>) -> Seq<Seq<Seq<char>>> {
    cmds.map_values(|c: Vec<String>| texts(c@))
}

impl View for TestRegistry {
    type V = RegistryModel;

    closed spec fn view(&self) -> RegistryModel {
        RegistryModel {
            tests: Map::new(
                |id: u64| self.map@.contains_key(id),
                |id: u64|
                    RegisteredTest {
                        item: self.map@[id],
                        cmdline: cmds_model(self.cmds@)[self.cmd_map@[id] as int],
                    },
            ),
            last: self.auto_increment,
            cmds: cmds_model(self.cmds@),
        }
    }
}

/// Adds a command line unless it is there.
pub open spec fn with_cmd(cmds: Seq<Seq<Seq<char>>>, cmdline: Seq<Seq<char>>) -> Seq<
    Seq<Seq<char>>,
> {
    if cmds.contains(cmdline) {
        cmds
    } else {
        cmds.push(cmdline)
    }
}

/// Registers a test under the next number.
pub open spec fn registered(
    before: RegistryModel,
    item: TestRegisryItem,
    cmdline: Seq<Seq<char>>,
) -> RegistryModel {
    let id = (before.last + 1) as u64;
    RegistryModel {
        tests: before.tests.insert(id, RegisteredTest { item, cmdline }),
        last: id,
        cmds: with_cmd(before.cmds, cmdline),
    }
}

impl TestRegistry {
    /// Every test has a number that was given and a command line, and every command line is
    /// held once.
    pub closed spec fn wf(&self) -> bool {
        &&& self.map@.dom() == self.cmd_map@.dom()
        &&& forall|id: u64| #[trigger]
            self.map@.contains_key(id) ==> 1 <= id <= self.auto_increment && self.cmd_map@[id]
                < self.cmds@.len()
        &&& cmds_model(self.cmds@).no_duplicates()
    }

    /// No test.
    pub fn new() -> (r: Self)
        ensures
            r.wf(),
            r@ == (RegistryModel { tests: Map::empty(), last: 0, cmds: Seq::empty() }),
    {
        broadcast use vstd::std_specs::hash::group_hash_axioms;

        let r = TestRegistry {
            auto_increment: 0,
            map: HashMap::new(),
            cmd_map: HashMap::new(),
            cmds: Vec::new(),
        };
        proof {
            assert(r@.tests =~= Map::empty());
            assert(r@.cmds =~= Seq::empty());
        }
        r
    }

    /// The last number that was given.
    pub fn last_number(&self) -> (n: u64)
        ensures
            n == self@.last,
    {
        self.auto_increment
    }

    /// The test with the number and the command line that runs it.
    pub fn get_test_params(&self, id: TestID) -> (r: Option<(&TestRegisryItem, &[String])>)
        requires
            self.wf(),
        ensures
            r is Some <==> self@.tests.contains_key(id@),
            r matches Some((item, cmdline)) ==> (RegisteredTest {
                item: *item,
                cmdline: texts(cmdline@),
            }) == self@.tests[id@],
    {
        broadcast use vstd::std_specs::hash::group_hash_axioms;

        match self.map.get(&id.0) {
            None => None,
            Some(item) => match self.get_test_commandline(id) {
                Some(cmdline) => Some((item, cmdline)),
                None => None,
            },
        }
    }

    /// The position of a command line among those that are held.
    fn find_cmd(&self, cmdline: &[String]) -> (r: Option<usize>)
        ensures
            r is Some <==> self@.cmds.contains(texts(cmdline@)),
            r matches Some(i) ==> i < self@.cmds.len() && self@.cmds[i as int] == texts(cmdline@),
    {
        let mut i: usize = 0;
        while i < self.cmds.len()
            invariant
                i <= self.cmds@.len(),
                forall|j: int| 0 <= j < i ==> self@.cmds[j] != texts(cmdline@),
            decreases self.cmds@.len() - i,
        {
            if same_texts(self.cmds[i].as_slice(), cmdline) {
                assert(self@.cmds[i as int] == texts(cmdline@));
                return Some(i);
            }
            i += 1;
        }
        None
    }

    /// Registers a test under a number of its own.
    pub fn add_new_test(&mut self, item: TestRegisryItem, cmdline: &[String]) -> (id: TestID)
        requires
            old(self).wf(),
            old(self)@.last < u64::MAX,
        ensures
            final(self).wf(),
            id@ == old(self)@.last + 1,
            final(self)@ == registered(old(self)@, item, texts(cmdline@)),
    {
        broadcast use vstd::std_specs::hash::group_hash_axioms;

        let ghost before = *self;
        self.auto_increment = self.auto_increment + 1;
        let new_id = self.auto_increment;
        let index = match self.find_cmd(cmdline) {
            Some(index) => index,
            None => {
                self.cmds.push(copy_texts(cmdline));
                self.cmds.len() - 1
            },
        };
        self.map.insert(new_id, item);
        self.cmd_map.insert(new_id, index);
        proof {
            let expected = registered(before@, item, texts(cmdline@));
            assert(self@.cmds =~= expected.cmds);
            assert(self@.cmds.no_duplicates()) by {
                if !before@.cmds.contains(texts(cmdline@)) {
                    assert forall|i: int, j: int|
                        0 <= i < self@.cmds.len() && 0 <= j < self@.cmds.len() && i
                            != j implies self@.cmds[i] != self@.cmds[j] by {
                        if i < before@.cmds.len() {
                            assert(before@.cmds.contains(before@.cmds[i]));
                        }
                        if j < before@.cmds.len() {
                            assert(before@.cmds.contains(before@.cmds[j]));
                        }
                    }
                }
            }
            assert(self@.cmds[index as int] == texts(cmdline@));
            assert forall|k: u64| #[trigger] self@.tests.contains_key(k) implies self@.tests[k]
                == expected.tests[k] by {
                if k != new_id {
                    assert(before.map@.contains_key(k));
                    assert(self@.cmds[self.cmd_map@[k] as int]
                        == before@.cmds[before.cmd_map@[k] as int]);
                }
            }
            assert(self@.tests =~= expected.tests);
            assert(self.map@.dom() =~= self.cmd_map@.dom());
        }
        TestID(new_id)
    }

    /// The command line of the test with the number.
    pub fn get_test_commandline(&self, id: TestID) -> (r: Option<&[String]>)
        requires
            self.wf(),
        ensures
            r is Some <==> self@.tests.contains_key(id@),
            r matches Some(cmdline) ==> texts(cmdline@) == self@.tests[id@].cmdline,
    {
        broadcast use vstd::std_specs::hash::group_hash_axioms;

        match self.cmd_map.get(&id.0) {
            None => {
                assert(!self.cmd_map@.dom().contains(id.0));
                None
            },
            Some(index) => {
                assert(self.cmd_map@.dom().contains(id.0));
                assert(self.map@.contains_key(id.0));
                Some(self.cmds[*index].as_slice())
            },
        }
    }

    /// Forgets all tests. Their numbers are not given again.
    pub fn clear(&mut self)
        requires
            old(self).wf(),
        ensures
            final(self).wf(),
            final(self)@ == (RegistryModel {
                tests: Map::empty(),
                last: old(self)@.last,
                cmds: Seq::empty(),
            }),
    {
        broadcast use vstd::std_specs::hash::group_hash_axioms;

        self.map.clear();
        self.cmd_map.clear();
        self.cmds.clear();
        proof {
            assert(self@.tests =~= Map::empty());
            assert(self@.cmds =~= Seq::empty());
            assert(self.map@.dom() =~= self.cmd_map@.dom());
        }
    }
}

impl RegistryModel {
    /// The test is registered under the number.
    pub open spec fn holds(&self, id: int, test: RegisteredTest) -> bool {
        self.tests.contains_key(id as u64) && self.tests[id as u64] == test
    }
}

/// Registering several tests one after the other.
pub open spec fn registered_all(before: RegistryModel, tests: Seq<RegisteredTest>) -> RegistryModel
    decreases tests.len(),
{
    if tests.len() == 0 {
        before
    } else {
        registered(
            registered_all(before, tests.drop_last()),
            tests.last().item,
            tests.last().cmdline,
        )
    }
}

/// A registered test is found under its number, with its command line, however many tests
/// are registered after it, and no two tests share a number.
pub proof fn law_registered_tests_are_found(before: RegistryModel, tests: Seq<RegisteredTest>)
    requires
        before.last + tests.len() <= u64::MAX,
    ensures
        registered_all(before, tests).last == before.last + tests.len(),
        forall|i: int|
            0 <= i < tests.len() ==> registered_all(before, tests).holds(
                before.last + 1 + i,
                #[trigger] tests[i],
            ),
        forall|id: u64|
            id <= before.last ==> #[trigger] registered_all(before, tests).tests.contains_key(id)
                == before.tests.contains_key(id),
        forall|id: u64|
            id <= before.last ==> #[trigger] registered_all(before, tests).tests[id]
                == before.tests[id],
    decreases tests.len(),
{
    if tests.len() > 0 {
        let rest = tests.drop_last();
        law_registered_tests_are_found(before, rest);
        assert forall|i: int| 0 <= i < tests.len() implies registered_all(before, tests).holds(
            before.last + 1 + i,
            #[trigger] tests[i],
        ) by {
            if i < rest.len() {
                assert(registered_all(before, rest).holds(before.last + 1 + i, rest[i]));
            }
        }
        assert forall|id: u64| id <= before.last implies #[trigger] registered_all(
            before,
            tests,
        ).tests.contains_key(id) == before.tests.contains_key(id) by {
            assert(registered_all(before, rest).tests.contains_key(id)
                == before.tests.contains_key(id));
        }
    }
}

proof fn lemma_with_cmd(cmds: Seq<Seq<Seq<char>>>, cmdline: Seq<Seq<char>>)
    requires
        cmds.no_duplicates(),
    ensures
        with_cmd(cmds, cmdline).no_duplicates(),
        with_cmd(cmds, cmdline).contains(cmdline),
        forall|c: Seq<Seq<char>>| #[trigger]
            with_cmd(cmds, cmdline).contains(c) <==> cmds.contains(c) || c == cmdline,
{
    let after = with_cmd(cmds, cmdline);
    if !cmds.contains(cmdline) {
        assert(after[cmds.len() as int] == cmdline);
        assert forall|i: int, j: int|
            0 <= i < after.len() && 0 <= j < after.len() && i != j implies after[i]
            != after[j] by {
            if i < cmds.len() {
                assert(cmds.contains(cmds[i]));
            }
            if j < cmds.len() {
                assert(cmds.contains(cmds[j]));
            }
        }
        assert forall|c: Seq<Seq<char>>| cmds.contains(c) implies #[trigger] after.contains(c) by {
            let i = cmds.index_of(c);
            assert(after[i] == c);
        }
        assert forall|c: Seq<Seq<char>>| #[trigger] after.contains(c) implies cmds.contains(c) || c
            == cmdline by {
            let i = after.index_of(c);
            if i < cmds.len() {
                assert(cmds[i] == c);
            }
        }
    }
}

/// However many tests share a command line, it is held once.
pub proof fn law_command_lines_are_shared(before: RegistryModel, tests: Seq<RegisteredTest>)
    requires
        before.cmds.no_duplicates(),
    ensures
        registered_all(before, tests).cmds.no_duplicates(),
        forall|c: Seq<Seq<char>>| #[trigger]
            registered_all(before, tests).cmds.contains(c) <==> before.cmds.contains(c) || exists|
                i: int,
            |
                0 <= i < tests.len() && (#[trigger] tests[i]).cmdline == c,
    decreases tests.len(),
{
    if tests.len() > 0 {
        let rest = tests.drop_last();
        let earlier = registered_all(before, rest);
        law_command_lines_are_shared(before, rest);
        lemma_with_cmd(earlier.cmds, tests.last().cmdline);
        assert forall|c: Seq<Seq<char>>|
            before.cmds.contains(c) || exists|i: int|
                0 <= i < tests.len() && (#[trigger] tests[i]).cmdline == c implies
            #[trigger] registered_all(before, tests).cmds.contains(c) by {
            if !before.cmds.contains(c) {
                let i = choose|i: int| 0 <= i < tests.len() && (#[trigger] tests[i]).cmdline == c;
                if i < rest.len() {
                    assert(rest[i].cmdline == c);
                }
            }
        }
        assert forall|c: Seq<Seq<char>>| #[trigger]
            registered_all(before, tests).cmds.contains(c) implies before.cmds.contains(c)
            || exists|i: int| 0 <= i < tests.len() && (#[trigger] tests[i]).cmdline == c by {
            if c == tests.last().cmdline {
                assert(tests[tests.len() - 1].cmdline == c);
            } else if !before.cmds.contains(c) {
                let i = choose|i: int| 0 <= i < rest.len() && (#[trigger] rest[i]).cmdline == c;
                assert(tests[i].cmdline == c);
            }
        }
    }
}

} // verus!
