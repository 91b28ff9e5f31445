//! The phases of a session: which functions are tested and how what went wrong is reported.

use crate::error::Error;
use crate::modmap::ExtModuleMap;
use crate::modmap::masked_to;
use crate::modmap::IntegralModId;
use crate::modmap::NumFunUid;
use crate::stages::test_output::TestOutputPathGen;
use crate::stages::testing::TestingPhase;
use vstd::prelude::*;

verus! {

/// The functions of the modules, module by module.
pub open spec fn by_module(modules: Seq<IntegralModId>, functions: Seq<NumFunUid>) -> Seq<NumFunUid>
    decreases modules.len(),
{
    if modules.len() == 0 {
        Seq::empty()
    } else {
        by_module(modules.drop_last(), functions) + functions.filter(
            |f: NumFunUid| f.module_id == modules.last(),
        )
    }
}

/// The functions in the order in which they are tested: module by module.
#[verifier::loop_isolation(false)]
pub fn functions_to_test(map: &ExtModuleMap) -> (r: Vec<NumFunUid>)
    requires
        map.wf(),
    ensures
        r@ == by_module(map.module_ids(), map.function_uids()),
{
    let modules = map.modules();
    let mut r: Vec<NumFunUid> = Vec::new();
    let mut i: usize = 0;
    proof {
        assert(r@ =~= by_module(modules@.subrange(0, 0), map.function_uids()));
    }
    while i < modules.len()
        invariant
            i <= modules@.len(),
            r@ == by_module(modules@.subrange(0, i as int), map.function_uids()),
        decreases modules@.len() - i,
    {
        let module = modules[i];
        let ghost of_module = |f: NumFunUid| f.module_id == module;
        let ghost number = |f: NumFunUid| f.function_id;
        let ghost group = map.function_uids().filter(of_module);
        let ghost before = r@;
        if let Some(functions) = map.functions(module) {
            let mut j: usize = 0;
            while j < functions.len()
                invariant
                    j <= functions@.len(),
                    functions@ == group.map_values(number),
                    r@ =~= before + group.subrange(0, j as int),
                decreases functions@.len() - j,
            {
                let uid = NumFunUid::from((module, functions[j]));
                proof {
                    map.function_uids().lemma_filter_pred(of_module, j as int);
                    assert(uid == group[j as int]);
                }
                r.push(uid);
                j += 1;
            }
            proof {
                assert(group.subrange(0, j as int) =~= group);
            }
        }
        proof {
            assert(map.knows_module(module));
            let upto = modules@.subrange(0, i + 1);
            assert(upto.drop_last() =~= modules@.subrange(0, i as int));
            assert(upto.last() == module);
        }
        i += 1;
    }
    proof {
        assert(modules@.subrange(0, i as int) =~= modules@);
    }
    r
}

proof fn lemma_by_module(modules: Seq<IntegralModId>, functions: Seq<NumFunUid>, f: NumFunUid)
    ensures
        by_module(modules, functions).contains(f) <==> functions.contains(f) && modules.contains(
            f.module_id,
        ),
    decreases modules.len(),
{
    if modules.len() > 0 {
        let before = modules.drop_last();
        let of_last = |g: NumFunUid| g.module_id == modules.last();
        let group = functions.filter(of_last);
        let all = by_module(modules, functions);
        lemma_by_module(before, functions, f);
        if all.contains(f) {
            let i = all.index_of(f);
            if i < by_module(before, functions).len() {
                assert(by_module(before, functions)[i] == f);
                assert(before.contains(f.module_id));
                let k = before.index_of(f.module_id);
                assert(modules[k] == f.module_id);
            } else {
                let k = i - by_module(before, functions).len();
                assert(group[k] == f);
                functions.lemma_filter_pred(of_last, k);
                lemma_filter_from(functions, of_last, f);
                assert(modules[modules.len() - 1] == f.module_id);
            }
        }
        if functions.contains(f) && modules.contains(f.module_id) {
            if f.module_id == modules.last() {
                functions.lemma_filter_contains(of_last, functions.index_of(f));
                let k = group.index_of(f);
                assert(all[by_module(before, functions).len() + k] == f);
            } else {
                let k = modules.index_of(f.module_id);
                assert(before[k] == f.module_id);
                let i = by_module(before, functions).index_of(f);
                assert(all[i] == f);
            }
        }
    }
}

proof fn lemma_filter_from(
    functions: Seq<NumFunUid>,
    pred: spec_fn(NumFunUid) -> bool,
    f: NumFunUid,
)
    requires
        functions.filter(pred).contains(f),
    ensures
        functions.contains(f),
    decreases functions.len(),
{
    reveal(Seq::filter);
    if functions.len() > 0 {
        let before = functions.drop_last();
        let i = functions.filter(pred).index_of(f);
        if i < before.filter(pred).len() {
            assert(before.filter(pred)[i] == f);
            lemma_filter_from(before, pred, f);
            assert(functions[before.index_of(f)] == f);
        } else {
            assert(functions[functions.len() - 1] == f);
        }
    }
}

/// Every known function is tested, and nothing else.
pub proof fn law_every_function_is_tested(map: ExtModuleMap, f: NumFunUid)
    requires
        map.wf(),
    ensures
        by_module(map.module_ids(), map.function_uids()).contains(f) <==> map.knows_function(f),
{
    lemma_by_module(map.module_ids(), map.function_uids(), f);
    if map.knows_function(f) {
        map.lemma_functions_have_modules(f);
    }
}

/// No function is tested twice.
pub proof fn law_no_function_is_tested_twice(map: ExtModuleMap)
    requires
        map.wf(),
    ensures
        by_module(map.module_ids(), map.function_uids()).no_duplicates(),
{
    map.lemma_nothing_occurs_twice();
    lemma_by_module_is_unique(map.module_ids(), map.function_uids());
}

proof fn lemma_filter_is_unique(functions: Seq<NumFunUid>, pred: spec_fn(NumFunUid) -> bool)
    requires
        functions.no_duplicates(),
    ensures
        functions.filter(pred).no_duplicates(),
    decreases functions.len(),
{
    reveal(Seq::filter);
    if functions.len() > 0 {
        let front = functions.drop_last();
        lemma_filter_is_unique(front, pred);
        let kept = functions.filter(pred);
        assert forall|i: int, j: int| 0 <= i < kept.len() && 0 <= j < kept.len() && i != j implies
            kept[i] != kept[j] by {
            let n = front.filter(pred).len();
            if i < n {
                lemma_filter_from(front, pred, front.filter(pred)[i]);
            }
            if j < n {
                lemma_filter_from(front, pred, front.filter(pred)[j]);
            }
            if i < n && j >= n {
                let k = front.index_of(kept[i]);
                assert(functions[k] == kept[i]);
                assert(kept[j] == functions[functions.len() - 1]);
            }
            if j < n && i >= n {
                let k = front.index_of(kept[j]);
                assert(functions[k] == kept[j]);
                assert(kept[i] == functions[functions.len() - 1]);
            }
        }
    }
}

proof fn lemma_by_module_is_unique(modules: Seq<IntegralModId>, functions: Seq<NumFunUid>)
    requires
        modules.no_duplicates(),
        functions.no_duplicates(),
    ensures
        by_module(modules, functions).no_duplicates(),
    decreases modules.len(),
{
    if modules.len() > 0 {
        let before = modules.drop_last();
        let of_last = |g: NumFunUid| g.module_id == modules.last();
        let earlier = by_module(before, functions);
        let group = functions.filter(of_last);
        let all = by_module(modules, functions);
        lemma_by_module_is_unique(before, functions);
        lemma_filter_is_unique(functions, of_last);
        assert forall|i: int, j: int| 0 <= i < all.len() && 0 <= j < all.len() && i != j implies
            all[i] != all[j] by {
            let n = earlier.len();
            if i < n && j < n {
                assert(all[i] == earlier[i] && all[j] == earlier[j]);
            } else if i >= n && j >= n {
                assert(all[i] == group[i - n] && all[j] == group[j - n]);
            } else {
                let (a, b) = if i < n {
                    (i, j)
                } else {
                    (j, i)
                };
                assert(all[a] == earlier[a]);
                assert(earlier.contains(all[a]));
                lemma_by_module(before, functions, all[a]);
                let k = before.index_of(all[a].module_id);
                assert(modules[k] == all[a].module_id);
                functions.lemma_filter_pred(of_last, b - n);
                assert(all[b].module_id == modules[modules.len() - 1]);
            }
        }
    }
}

/// The functions of a module are tested together: between two functions of one module no function
/// of another one comes.
pub proof fn law_modules_are_tested_one_by_one(map: ExtModuleMap, i: int, j: int, k: int)
    requires
        map.wf(),
        ({
            let all = by_module(map.module_ids(), map.function_uids());
            0 <= i < j < k < all.len() && all[i].module_id == all[k].module_id
        }),
    ensures
        ({
            let all = by_module(map.module_ids(), map.function_uids());
            all[j].module_id == all[i].module_id
        }),
{
    map.lemma_nothing_occurs_twice();
    lemma_modules_in_a_row(map.module_ids(), map.function_uids(), i, j, k);
}

proof fn lemma_modules_in_a_row(
    modules: Seq<IntegralModId>,
    functions: Seq<NumFunUid>,
    i: int,
    j: int,
    k: int,
)
    requires
        modules.no_duplicates(),
        0 <= i < j < k < by_module(modules, functions).len(),
        by_module(modules, functions)[i].module_id == by_module(modules, functions)[k].module_id,
    ensures
        by_module(modules, functions)[j].module_id == by_module(modules, functions)[i].module_id,
    decreases modules.len(),
{
    let before = modules.drop_last();
    let of_last = |g: NumFunUid| g.module_id == modules.last();
    let earlier = by_module(before, functions);
    let n = earlier.len();
    if k < n {
        lemma_modules_in_a_row(before, functions, i, j, k);
    } else {
        functions.lemma_filter_pred(of_last, k - n);
        if i < n {
            let f = earlier[i];
            assert(earlier.contains(f));
            lemma_by_module(before, functions, f);
            let m = before.index_of(f.module_id);
            assert(modules[m] == f.module_id);
            assert(modules[modules.len() - 1] == f.module_id);
        } else {
            functions.lemma_filter_pred(of_last, j - n);
        }
    }
}

/// A function is tested with all of its packets, and passed over only if there are none.
pub proof fn law_functions_are_tested_with_all_packets(
    uid: NumFunUid,
    count: u32,
    r: Result<FunctionTests, Error>,
)
    requires
        call_ensures(testing_phase, (uid, Some(count)), r),
    ensures
        r is Ok,
        r->Ok_0 is Skip <==> count == 0,
        r->Ok_0 matches FunctionTests::Run(n) ==> n == count,
{
}

/// A round is run exactly if it was prepared and has something to run, and one that could not be
/// prepared is an error only where there are checkpoints.
pub proof fn law_only_prepared_rounds_are_run(
    prepared: Result<bool, Error>,
    step: CaseStep,
    with_checkpoints: Result<CaseStep, Error>,
)
    requires
        call_ensures(run_test_case, (prepared,), step),
        call_ensures(checkpoint_round, (prepared,), with_checkpoints),
    ensures
        step is Run <==> prepared is Ok && prepared->Ok_0,
        step !is Prepare,
        with_checkpoints is Err <==> prepared is Err,
        with_checkpoints is Err ==> with_checkpoints->Err_0 == prepared->Err_0,
        with_checkpoints is Ok ==> with_checkpoints->Ok_0 == step,
{
}

/// Tracing and capturing succeed exactly if they and both shutdowns after them do, and what was
/// traced is handed on as it is. Of two failed shutdowns, tracing reports that of the
/// infrastructure and capturing that of the channel.
pub proof fn law_failed_shutdowns_are_reported<T>(
    traced: Result<T, String>,
    captured: Result<(), String>,
    infra_deinit: Result<(), String>,
    meta_deinit: Result<(), String>,
    tracing: Result<T, String>,
    capturing: Result<(), String>,
)
    requires
        call_ensures(calltrace_phase::<T>, (traced, infra_deinit, meta_deinit), tracing),
        call_ensures(arg_capture_phase, (captured, infra_deinit, meta_deinit), capturing),
    ensures
        tracing is Ok <==> traced is Ok && infra_deinit is Ok && meta_deinit is Ok,
        tracing is Ok ==> tracing->Ok_0 == traced->Ok_0,
        capturing is Ok <==> captured is Ok && infra_deinit is Ok && meta_deinit is Ok,
        infra_deinit is Err ==> tracing->Err_0 == infra_deinit->Err_0,
        meta_deinit is Err ==> capturing->Err_0 == meta_deinit->Err_0,
        infra_deinit is Ok && meta_deinit is Err ==> tracing->Err_0 == meta_deinit->Err_0,
        meta_deinit is Ok && infra_deinit is Err ==> capturing->Err_0 == infra_deinit->Err_0,
{
}

/// What to do with a function.
#[derive(Debug, Clone, Copy, PartialEq, Eq, Structural)]
pub enum FunctionTests {
    /// nothing, there are no packets to test with
    Skip,
    /// test it with this many packets
    Run(u32),
}

/// What to do with a function, by the number of its packets. It is an error if that is not
/// known.
pub fn testing_phase(uid: NumFunUid, test_count: Option<u32>) -> (r: Result<FunctionTests, Error>)
    ensures
        r == match test_count {
            None => Err::<FunctionTests, Error>(Error::NoPackets(uid)),
            Some(n) => Ok::<FunctionTests, Error>(
                if n == 0 {
                    FunctionTests::Skip
                } else {
                    FunctionTests::Run(n)
                },
            ),
        },
{
    match test_count {
        None => Err(Error::NoPackets(uid)),
        Some(0) => Ok(FunctionTests::Skip),
        Some(n) => Ok(FunctionTests::Run(n)),
    }
}

/// Where the outputs of tests with checkpoints go, which has to be given.
pub fn checkpoint_output(output: Option<&TestOutputPathGen>) -> (r: Result<
    &TestOutputPathGen,
    Error,
>)
    ensures
        match output {
            Some(paths) => r == Ok::<&TestOutputPathGen, Error>(paths),
            None => r == Err::<&TestOutputPathGen, Error>(Error::NoOutput),
        },
{
    match output {
        Some(paths) => Ok(paths),
        None => Err(Error::NoOutput),
    }
}

/// What to do in the course of testing a function.
#[derive(Debug, Clone, Copy, PartialEq, Eq, Structural)]
pub enum CaseStep {
    /// run the tests of the round
    Run,
    /// prepare the next round
    Prepare,
    /// nothing more
    Stop,
}

/// What to do after a round was prepared: it is run if there is something to run. A round that
/// could not be prepared ends the testing of the function without an error.
pub fn run_test_case(prepared: Result<bool, Error>) -> (step: CaseStep)
    ensures
        step == if prepared == Ok::<bool, Error>(true) {
            CaseStep::Run
        } else {
            CaseStep::Stop
        },
{
    match prepared {
        Ok(true) => CaseStep::Run,
        _ => CaseStep::Stop,
    }
}

/// What to do after a round of testing with checkpoints was prepared: it is run if there is
/// something to run. That a round could not be prepared is an error here.
pub fn checkpoint_round(prepared: Result<bool, Error>) -> (r: Result<CaseStep, Error>)
    ensures
        r == match prepared {
            Err(e) => Err::<CaseStep, Error>(e),
            Ok(ready) => Ok::<CaseStep, Error>(
                if ready {
                    CaseStep::Run
                } else {
                    CaseStep::Stop
                },
            ),
        },
{
    match prepared {
        Err(e) => Err(e),
        Ok(true) => Ok(CaseStep::Run),
        Ok(false) => Ok(CaseStep::Stop),
    }
}

/// What to do after a round was run.
pub fn after_round<P: TestingPhase>(phase: &P) -> (step: CaseStep)
    ensures
        step == if phase.has_next() {
            CaseStep::Prepare
        } else {
            CaseStep::Stop
        },
{
    if phase.next_batch().is_none() {
        CaseStep::Stop
    } else {
        CaseStep::Prepare
    }
}

/// The map without the functions that were not selected. Refused if a selected function is not
/// known.
pub fn mask_fn_selection(selection: &[NumFunUid], modules: ExtModuleMap) -> (r: Result<
    ExtModuleMap,
    Error,
>)
    requires
        modules.wf(),
    ensures
        r is Ok <==> forall|i: int|
            0 <= i < selection@.len() ==> modules.knows_function(#[trigger] selection@[i]),
        r matches Ok(masked) ==> {
            &&& masked.wf()
            &&& masked.module_ids() == modules.module_ids()
            &&& forall|m: IntegralModId| #[trigger]
                modules.knows_module(m) ==> masked.module_name(m) == modules.module_name(m)
            &&& masked.function_uids() == modules.function_uids().filter(
                |f: NumFunUid| selection@.contains(f),
            )
            &&& forall|f: NumFunUid| #[trigger]
                masked.knows_function(f) ==> masked.function(f) == modules.function(f)
        },
        r matches Ok(masked) ==> masked_to(modules, masked, selection@),
        r matches Err(e) ==> exists|i: int|
            0 <= i < selection@.len() && !modules.knows_function(#[trigger] selection@[i]) && e
                == Error::UnknownFunction(selection@[i]) && forall|j: int|
                0 <= j < i ==> modules.knows_function(#[trigger] selection@[j]),
{
    let mut modules = modules;
    match modules.mask_include(selection) {
        Ok(()) => Ok(modules),
        Err(e) => Err(e),
    }
}

/// Where the call trace comes from.
#[derive(Debug)]
pub enum TraceSource {
    /// import it from the file
    Import(String),
    /// trace the command
    Trace(Vec<String>),
}

/// Where the call trace comes from: a file, if one is given, comes before a command.
pub fn trace_source(import_path: Option<String>, command: Option<Vec<String>>) -> (r: Result<
    TraceSource,
    Error,
>)
    ensures
        r == match (import_path, command) {
            (Some(path), _) => Ok::<TraceSource, Error>(TraceSource::Import(path)),
            (None, Some(command)) => Ok::<TraceSource, Error>(TraceSource::Trace(command)),
            (None, None) => Err::<TraceSource, Error>(Error::NoCommand),
        },
{
    match import_path {
        Some(path) => Ok(TraceSource::Import(path)),
        None => match command {
            Some(command) => Ok(TraceSource::Trace(command)),
            None => Err(Error::NoCommand),
        },
    }
}

/// The outcome of call tracing, after the infrastructure and then the metadata channel were
/// shut down. A failure to shut down the infrastructure comes first, then one of the channel,
/// which is left alone if the infrastructure failed.
pub fn calltrace_phase<T>(
    traced: Result<T, String>,
    infra_deinit: Result<(), String>,
    meta_deinit: Result<(), String>,
) -> (r: Result<T, String>)
    ensures
        r == match (infra_deinit, meta_deinit) {
            (Err(e), _) => Err::<T, String>(e),
            (Ok(_), Err(e)) => Err::<T, String>(e),
            _ => traced,
        },
{
    match infra_deinit {
        Err(e) => Err(e),
        Ok(()) => match meta_deinit {
            Err(e) => Err(e),
            Ok(()) => traced,
        },
    }
}

/// The outcome of capturing arguments, after the infrastructure and then the metadata channel
/// were shut down, both in any case. A failure of the channel comes first, then one of the
/// infrastructure.
pub fn arg_capture_phase(
    captured: Result<(), String>,
    infra_deinit: Result<(), String>,
    meta_deinit: Result<(), String>,
) -> (r: Result<(), String>)
    ensures
        r == match (meta_deinit, infra_deinit) {
            (Err(e), _) => Err::<(), String>(e),
            (Ok(_), Err(e)) => Err::<(), String>(e),
            _ => captured,
        },
{
    match meta_deinit {
        Err(e) => Err(e),
        Ok(()) => match infra_deinit {
            Err(e) => Err(e),
            Ok(()) => captured,
        },
    }
}

} // verus!
