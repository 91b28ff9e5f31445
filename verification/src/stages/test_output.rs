//! Where the outputs of tests go, and how they are kept over checkpoints.

use crate::error::Error;
use crate::stages::test_jobs::mk_fail;
use crate::stages::test_jobs::result_of;
use crate::stages::test_jobs::TestJobFailure;
use crate::stages::test_protocol::StatusModel;
use crate::stages::test_protocol::TestStatus;
use crate::stages::test_registry::test_id_text;
use crate::stages::test_registry::TestRegisryItem;
use crate::text::dec;
use crate::text::decimal;
use crate::text::hex;
use crate::text::is_digit;
use crate::text::law_decimal_is_unambiguous;
use crate::text::law_hexadecimal_is_read_back;
use crate::text::lemma_dec_is_digits;
use crate::text::lemma_hex_ranges;
use crate::text::lemma_same_parts;
use vstd::prelude::*;

verus! {

/// A path put behind a directory: an absolute path stands for itself, another one follows the
/// directory, set off by a slash unless the directory is empty or ends in one.
pub open spec fn path_joined(base: Seq<char>, name: Seq<char>) -> Seq<char> {
    if name.len() > 0 && name[0] == '/' {
        name
    } else if base.len() == 0 || base.last() == '/' {
        base + name
    } else {
        base + "/"@ + name
    }
}

/// `Path::join`, on a Unix system: an absolute path replaces the directory, another one is
/// adjoined to it, with a slash between them where one is needed, as [`path_joined`] says.
#[verifier::external_body]
fn join_path(base: &str, name: &str) -> (r: String)
    ensures
        r@ == path_joined(base@, name@),
{
    std::path::Path::new(base).join(name).to_string_lossy().into_owned()
}

/// The path without its last component.
pub uninterp spec fn path_parent(path: Seq<char>) -> Option<Seq<char>>;

/// `Path::parent`: the result is a function of the path, named [`path_parent`].
#[verifier::external_body]
fn parent_of_path(path: &str) -> (r: Option<String>)
    ensures
        match r {
            Some(parent) => path_parent(path@) == Some(parent@),
            None => path_parent(path@) is None,
        },
{
    std::path::Path::new(path).parent().map(|p| p.to_string_lossy().into_owned())
}

/// The last component of the path.
pub uninterp spec fn path_file_name(path: Seq<char>) -> Option<Seq<char>>;

/// `Path::file_name`: the result is a function of the path, named [`path_file_name`].
#[verifier::external_body]
fn file_name_of_path(path: &str) -> (r: Option<String>)
    ensures
        match r {
            Some(name) => path_file_name(path@) == Some(name@),
            None => path_file_name(path@) is None,
        },
{
    std::path::Path::new(path).file_name().map(|p| p.to_string_lossy().into_owned())
}

/// A file to be copied.
#[derive(Debug)]
pub struct CopyStep {
    pub from: String,
    pub to: String,
    /// what is put in front of the error that comes up
    pub context: &'static str,
    /// whether the two paths are put behind it
    pub name_paths: bool,
}

/// Where files are copied from and to.
pub open spec fn copies_model(steps: Seq<CopyStep>) -> Seq<(Seq<char>, Seq<char>)> {
    steps.map_values(|s: CopyStep| (s.from@, s.to@))
}

/// Where files are copied from and to is what each copy says, in order.
pub proof fn law_copies_are_those_of_each_step(steps: Seq<CopyStep>)
    ensures
        copies_model(steps).len() == steps.len(),
        forall|i: int|
            0 <= i < steps.len() ==> (#[trigger] copies_model(steps)[i]).0 == steps[i].from@
                && copies_model(steps)[i].1 == steps[i].to@,
{
}

/// The paths of standard output and standard error of a checkpointed program.
#[derive(Debug)]
pub struct CheckpointPaths {
    originals: (String, String),
    // criu expects the original files on these paths
    criu_expected: (String, String),
}

/// The contents of [`CheckpointPaths`].
#[verifier::ext_equal]
pub struct PathsModel {
    pub originals: (Seq<char>, Seq<char>),
    pub criu_expected: (Seq<char>, Seq<char>),
}

impl View for CheckpointPaths {
    type V = PathsModel;

    closed spec fn view(&self) -> PathsModel {
        PathsModel {
            originals: (self.originals.0@, self.originals.1@),
            criu_expected: (self.criu_expected.0@, self.criu_expected.1@),
        }
    }
}

/// The copies that put the stored outputs back to where they are expected.
pub open spec fn restore_copies(paths: PathsModel) -> Seq<(Seq<char>, Seq<char>)> {
    seq![
        (paths.originals.0, paths.criu_expected.0),
        (paths.originals.1, paths.criu_expected.1),
    ]
}

/// The copies that keep the outputs under the given paths.
pub open spec fn persist_copies(paths: PathsModel, out: Seq<char>, err: Seq<char>) -> Seq<
    (Seq<char>, Seq<char>),
> {
    seq![(paths.criu_expected.0, out), (paths.criu_expected.1, err)]
}

impl CheckpointPaths {
    /// What puts the stored outputs back to where they are expected.
    pub fn restore(&self) -> (steps: Vec<CopyStep>)
        ensures
            copies_model(steps@) == restore_copies(self@),
            forall|i: int|
                0 <= i < steps@.len() ==> (#[trigger] steps@[i]).context@
                    == "Checkpoint restore, out: "@ && steps@[i].name_paths,
    {
        let mut steps: Vec<CopyStep> = Vec::new();
        steps.push(
            CopyStep {
                from: self.originals.0.clone(),
                to: self.criu_expected.0.clone(),
                context: "Checkpoint restore, out: ",
                name_paths: true,
            },
        );
        steps.push(
            CopyStep {
                from: self.originals.1.clone(),
                to: self.criu_expected.1.clone(),
                context: "Checkpoint restore, out: ",
                name_paths: true,
            },
        );
        proof {
            assert(copies_model(steps@) =~= restore_copies(self@));
        }
        steps
    }

    /// What keeps the outputs under the given paths.
    pub fn persist(&self, out: &str, err: &str) -> (steps: Vec<CopyStep>)
        ensures
            copies_model(steps@) == persist_copies(self@, out@, err@),
            forall|i: int|
                0 <= i < steps@.len() ==> (#[trigger] steps@[i]).context@ == "Persist, out: "@
                    && steps@[i].name_paths,
    {
        let mut steps: Vec<CopyStep> = Vec::new();
        steps.push(
            CopyStep {
                from: self.criu_expected.0.clone(),
                to: out.to_owned(),
                context: "Persist, out: ",
                name_paths: true,
            },
        );
        steps.push(
            CopyStep {
                from: self.criu_expected.1.clone(),
                to: err.to_owned(),
                context: "Persist, out: ",
                name_paths: true,
            },
        );
        proof {
            assert(copies_model(steps@) =~= persist_copies(self@, out@, err@));
        }
        steps
    }
}

/// What to do to store the outputs after a checkpoint.
#[derive(Debug)]
pub struct StorePlan {
    /// to be copied, in this order
    pub copies: Vec<CopyStep>,
    /// where the outputs are afterwards. None if that cannot be told, which is an error once
    /// the files were copied
    pub paths: Option<CheckpointPaths>,
}

/// Makes the paths that the outputs of tests go to.
pub struct TestOutputPathGen {
    dir: bool,
    base: String,
    tmp_dir: String,
    criu_dumps_dir: String,
}

/// The contents of a [`TestOutputPathGen`].
#[verifier::ext_equal]
pub struct OutputModel {
    pub dir: bool,
    pub base: Seq<char>,
    pub tmp_dir: Seq<char>,
    pub criu_dumps_dir: Seq<char>,
}

impl View for TestOutputPathGen {
    type V = OutputModel;

    closed spec fn view(&self) -> OutputModel {
        OutputModel {
            dir: self.dir,
            base: self.base@,
            tmp_dir: self.tmp_dir@,
            criu_dumps_dir: self.criu_dumps_dir@,
        }
    }
}

/// The directory that holds the directories for temporary files and for checkpoints.
pub open spec fn working_parent(base: Seq<char>, is_dir: bool) -> Option<Seq<char>> {
    if is_dir {
        Some(base)
    } else {
        path_parent(base)
    }
}

/// The name of a file for an output of a test.
pub open spec fn output_name(test: TestRegisryItem, suffix: Seq<char>, ending: Seq<char>) -> Seq<
    char,
> {
    "M"@ + hex(test.uid.module_id.0 as nat, 8) + "-F"@ + hex(test.uid.function_id.0 as nat, 8)
        + "-"@ + test_id_text(
        test.thread_lid.0 as nat,
        test.call_index.0 as nat,
        test.packet_index.0 as nat,
    ) + suffix + ending
}

impl OutputModel {
    /// Where a file of the given name goes: into the directory, or to the one file there is.
    pub open spec fn path(&self, name: Seq<char>) -> Seq<char> {
        if self.dir {
            path_joined(self.base, name)
        } else {
            self.base
        }
    }

    /// The directory of the checkpoint with the index.
    pub open spec fn dump_path(&self, index: nat) -> Seq<char> {
        path_joined(self.criu_dumps_dir, dec(index))
    }

    /// Where a test's standard output goes.
    pub open spec fn out_path(&self, test: TestRegisryItem, suffix: Seq<char>) -> Seq<char> {
        self.path(output_name(test, suffix, ".out"@))
    }

    /// Where a test's standard error goes.
    pub open spec fn err_path(&self, test: TestRegisryItem, suffix: Seq<char>) -> Seq<char> {
        self.path(output_name(test, suffix, ".err"@))
    }

    /// Where the outputs of a test are stored at a checkpoint. None if their paths end in no
    /// file names.
    pub open spec fn stored(&self, test: TestRegisryItem) -> Option<(Seq<char>, Seq<char>)> {
        match (
            path_file_name(self.out_path(test, ""@)),
            path_file_name(self.err_path(test, ""@)),
        ) {
            (Some(out), Some(err)) => Some(
                (path_joined(self.tmp_dir, out), path_joined(self.tmp_dir, err)),
            ),
            _ => None,
        }
    }

    /// Where the outputs of a test are at a checkpoint: a program that runs from the start
    /// writes to the plain paths, the outputs of a restored one were persisted.
    pub open spec fn at_checkpoint(&self, from_scratch: bool, test: TestRegisryItem) -> (
        Seq<char>,
        Seq<char>,
    ) {
        let suffix = if from_scratch {
            ""@
        } else {
            "-per"@
        };
        (self.out_path(test, suffix), self.err_path(test, suffix))
    }
}

/// The plan is the one that stores the outputs of a test after a checkpoint.
pub open spec fn stored_after_checkpoint(
    outputs: OutputModel,
    from_scratch: bool,
    test: TestRegisryItem,
    paths: Option<PathsModel>,
    r: Result<StorePlan, Error>,
) -> bool {
    match outputs.stored(test) {
        None => r == Err::<StorePlan, Error>(Error::NoFileName),
        Some(stored) => {
            let at = outputs.at_checkpoint(from_scratch, test);
            &&& r is Ok
            &&& copies_model(r->Ok_0.copies@) == seq![(at.0, stored.0), (at.1, stored.1)]
            &&& r->Ok_0.copies@[0].context@ == if from_scratch {
                "Checkpoint scratch copy, out: "@
            } else {
                "Checkpoint copy, out: "@
            }
            &&& r->Ok_0.copies@[1].context@ == if from_scratch {
                "Checkpoint scratch copy, err: "@
            } else {
                "Checkpoint copy, err: "@
            }
            &&& !r->Ok_0.copies@[0].name_paths && !r->Ok_0.copies@[1].name_paths
            &&& r->Ok_0.paths is Some <==> from_scratch || paths is Some
            &&& r->Ok_0.paths matches Some(next) ==> next@ == (PathsModel {
                originals: stored,
                criu_expected: if from_scratch {
                    at
                } else {
                    paths->Some_0.criu_expected
                },
            })
        },
    }
}

impl TestOutputPathGen {
    /// Whether the directory has to be created. What is there already must be a directory.
    pub fn ensure_dir(path: &str, present: bool, is_dir: bool) -> (r: Result<bool, Error>)
        ensures
            present && !is_dir ==> r is Err && r->Err_0 is NotADirectory
                && r->Err_0->NotADirectory_0@ == path@,
            !present || is_dir ==> r == Ok::<bool, Error>(!present),
    {
        if present && !is_dir {
            Err(Error::NotADirectory(path.to_owned()))
        } else {
            Ok(!present)
        }
    }

    /// The directories for temporary files and for checkpoints, which have to be ensured in this
    /// order. `is_dir` says whether `base` is a directory.
    pub fn working_dirs(base: &str, is_dir: bool) -> (r: Result<(String, String), Error>)
        ensures
            match working_parent(base@, is_dir) {
                None => r == Err::<(String, String), Error>(Error::NoParentDirectory),
                Some(parent) => r is Ok && r->Ok_0.0@ == path_joined(parent, "temp"@)
                    && r->Ok_0.1@ == path_joined(parent, "criu-dumps"@),
            },
    {
        let tmp_parent = if is_dir {
            base.to_owned()
        } else {
            match parent_of_path(base) {
                Some(parent) => parent,
                None => {
                    return Err(Error::NoParentDirectory);
                },
            }
        };
        let tmp_dir = join_path(tmp_parent.as_str(), "temp");
        let criu_dumps_dir = join_path(tmp_parent.as_str(), "criu-dumps");
        Ok((tmp_dir, criu_dumps_dir))
    }

    /// The paths below `base`, if there is one. `was_dir` says whether it was a directory before
    /// the working directories were ensured, `is_dir` whether it is one now; if not, all outputs
    /// go to it.
    pub fn make(base: Option<&str>, was_dir: bool, is_dir: bool) -> (r: Result<
        Option<Self>,
        Error,
    >)
        ensures
            match base {
                None => r is Ok && r->Ok_0 is None,
                Some(base) => match working_parent(base@, was_dir) {
                    None => r == Err::<Option<Self>, Error>(Error::NoParentDirectory),
                    Some(parent) => r is Ok && r->Ok_0 is Some && r->Ok_0->Some_0@ == (
                    OutputModel {
                        dir: is_dir,
                        base: base@,
                        tmp_dir: path_joined(parent, "temp"@),
                        criu_dumps_dir: path_joined(parent, "criu-dumps"@),
                    }),
                },
            },
    {
        let base = match base {
            Some(base) => base,
            None => {
                return Ok(None);
            },
        };
        match Self::working_dirs(base, was_dir) {
            Err(e) => Err(e),
            Ok((tmp_dir, criu_dumps_dir)) => Ok(
                Some(
                    TestOutputPathGen {
                        dir: is_dir,
                        base: base.to_owned(),
                        tmp_dir,
                        criu_dumps_dir,
                    },
                ),
            ),
        }
    }

    /// The directory for temporary files.
    pub fn tmp_dir(&self) -> (r: &str)
        ensures
            r@ == self@.tmp_dir,
    {
        self.tmp_dir.as_str()
    }

    /// The directory for checkpoints.
    pub fn criu_dumps_dir(&self) -> (r: &str)
        ensures
            r@ == self@.criu_dumps_dir,
    {
        self.criu_dumps_dir.as_str()
    }

    /// The directory of the checkpoint with the index.
    pub fn get_criu_dump(&self, index: usize) -> (path: String)
        ensures
            path@ == path_joined(self@.criu_dumps_dir, dec(index as nat)),
            path@ == self@.dump_path(index as nat),
    {
        join_path(self.criu_dumps_dir.as_str(), decimal(index as u64).as_str())
    }

    /// The directory of the checkpoint with the index, once it was ensured. A failure is that
    /// of the test.
    pub fn get_criu_path(
        &self,
        index: usize,
        test_for_err: &TestRegisryItem,
        ensured: Result<(), String>,
    ) -> (r: Result<String, TestJobFailure>)
        requires
            test_for_err.call_index.0 < u32::MAX,
        ensures
            ensured is Ok ==> r is Ok && r->Ok_0@ == self@.dump_path(index as nat),
            match ensured {
                Ok(_) => r is Ok && r->Ok_0@ == path_joined(
                    self@.criu_dumps_dir,
                    dec(index as nat),
                ),
                Err(_) => r is Err && r->Err_0@ == result_of(
                    *test_for_err,
                    StatusModel::Fatal("Invalid checkpoint dir path"@),
                ),
            },
    {
        match ensured {
            Ok(()) => Ok(self.get_criu_dump(index)),
            Err(e) => Err(
                mk_fail(
                    test_for_err,
                    e.as_str(),
                    TestStatus::Fatal("Invalid checkpoint dir path".to_owned()),
                ),
            ),
        }
    }

    fn name_of(tst: &TestRegisryItem, suffix: &str, ending: &str) -> (name: String)
        ensures
            name@ == output_name(*tst, suffix@, ending@),
    {
        "M".to_owned().concat(tst.uid.module_id.hex_string().as_str()).concat("-F").concat(
            tst.uid.function_id.hex_string().as_str(),
        ).concat("-").concat(tst.id().as_str()).concat(suffix).concat(ending)
    }

    /// Where a test's standard output goes.
    pub fn get_out_path(&self, tst: &TestRegisryItem, suffix: &str) -> (path: String)
        ensures
            path@ == self@.out_path(*tst, suffix@),
    {
        self.get_path(Self::name_of(tst, suffix, ".out"))
    }

    /// Where a test's standard error goes.
    pub fn get_err_path(&self, tst: &TestRegisryItem, suffix: &str) -> (path: String)
        ensures
            path@ == self@.err_path(*tst, suffix@),
    {
        self.get_path(Self::name_of(tst, suffix, ".err"))
    }

    fn get_path(&self, dir_append_variant: String) -> (path: String)
        ensures
            path@ == self@.path(dir_append_variant@),
    {
        if self.dir {
            join_path(self.base.as_str(), dir_append_variant.as_str())
        } else {
            self.base.clone()
        }
    }

    /// Stores stdout/err to temporary locations after a checkpoint.
    /// The temporary copy is needed for the restoration done later
    /// The paths in the plan are those used for restoring
    pub fn store_after_checkpoint(
        &self,
        ran_from_scratch: bool,
        tst: &TestRegisryItem,
        paths: Option<&CheckpointPaths>,
    ) -> (r: Result<StorePlan, Error>)
        ensures
            stored_after_checkpoint(
                self@,
                ran_from_scratch,
                *tst,
                match paths {
                    Some(x) => Some(x@),
                    None => None,
                },
                r,
            ),
    {
        let from_out = self.get_out_path(tst, "");
        let from_err = self.get_err_path(tst, "");
        let (out_name, err_name) = match (
            file_name_of_path(from_out.as_str()),
            file_name_of_path(from_err.as_str()),
        ) {
            (Some(out), Some(err)) => (out, err),
            _ => {
                return Err(Error::NoFileName);
            },
        };
        let temp_out = join_path(self.tmp_dir.as_str(), out_name.as_str());
        let temp_err = join_path(self.tmp_dir.as_str(), err_name.as_str());
        let ghost at = self@.at_checkpoint(ran_from_scratch, *tst);
        let mut copies: Vec<CopyStep> = Vec::new();
        let criu_expected: Option<(String, String)>;
        if ran_from_scratch {
            copies.push(
                CopyStep {
                    from: from_out.clone(),
                    to: temp_out.clone(),
                    context: "Checkpoint scratch copy, out: ",
                    name_paths: false,
                },
            );
            copies.push(
                CopyStep {
                    from: from_err.clone(),
                    to: temp_err.clone(),
                    context: "Checkpoint scratch copy, err: ",
                    name_paths: false,
                },
            );
            // this is the very first path, all restored programs use this SINGLE path for their outputs
            // - we are merely replacing it in between runs and restoring it before runs
            criu_expected = Some((from_out, from_err));
        } else {
            // when checkpointing from a restored program, the paths have the -per suffix
            copies.push(
                CopyStep {
                    from: self.get_out_path(tst, "-per"),
                    to: temp_out.clone(),
                    context: "Checkpoint copy, out: ",
                    name_paths: false,
                },
            );
            copies.push(
                CopyStep {
                    from: self.get_err_path(tst, "-per"),
                    to: temp_err.clone(),
                    context: "Checkpoint copy, err: ",
                    name_paths: false,
                },
            );
            criu_expected = match paths {
                Some(x) => Some((x.criu_expected.0.clone(), x.criu_expected.1.clone())),
                None => None,
            };
        }
        proof {
            assert(copies_model(copies@) =~= seq![(at.0, temp_out@), (at.1, temp_err@)]);
        }
        let paths = match criu_expected {
            Some(criu_expected) => Some(
                CheckpointPaths { originals: (temp_out, temp_err), criu_expected },
            ),
            None => None,
        };
        Ok(StorePlan { copies, paths })
    }

    /// Reloads temporarily stored stdout/err of a test job to allow the restoration to go through.
    pub fn reload_before_restore(&self, previous_paths: &CheckpointPaths) -> (steps: Vec<CopyStep>)
        ensures
            copies_model(steps@) == restore_copies(previous_paths@),
            forall|i: int|
                0 <= i < steps@.len() ==> (#[trigger] steps@[i]).context@
                    == "Checkpoint restore, out: "@ && steps@[i].name_paths,
    {
        previous_paths.restore()
    }

    /// What keeps the outputs of a restored test.
    pub fn persist_after_restore(
        &self,
        tst: &TestRegisryItem,
        previous_paths: &CheckpointPaths,
    ) -> (r: Result<Vec<CopyStep>, Error>)
        ensures
            ({
                let out = self@.out_path(*tst, "-per"@);
                let err = self@.err_path(*tst, "-per"@);
                if path_file_name(out) is Some && path_file_name(err) is Some {
                    &&& r is Ok
                    &&& copies_model(r->Ok_0@) == persist_copies(previous_paths@, out, err)
                    &&& forall|i: int|
                        0 <= i < r->Ok_0@.len() ==> (#[trigger] r->Ok_0@[i]).context@
                            == "Persist, out: "@ && r->Ok_0@[i].name_paths
                } else {
                    r == Err::<Vec<CopyStep>, Error>(Error::NoFileName)
                }
            }),
    {
        let out = self.get_out_path(tst, "-per");
        let err = self.get_err_path(tst, "-per");
        if file_name_of_path(out.as_str()).is_none() || file_name_of_path(
            err.as_str(),
        ).is_none() {
            return Err(Error::NoFileName);
        }
        Ok(previous_paths.persist(out.as_str(), err.as_str()))
    }
}

/// In a directory, a test's standard error goes to the path of its standard output with the
/// ending `.err` in place of `.out`, so the two never share a file. Without a directory, both go
/// to the one file there is.
pub proof fn law_outputs_of_a_test_stay_apart(
    outputs: OutputModel,
    test: TestRegisryItem,
    suffix: Seq<char>,
)
    ensures
        ({
            let out = outputs.out_path(test, suffix);
            let err = outputs.err_path(test, suffix);
            &&& outputs.dir ==> out != err && exists|stem: Seq<char>|
                out == #[trigger] (stem + ".out"@) && err == stem + ".err"@
            &&& !outputs.dir ==> out == outputs.base && err == outputs.base
        }),
{
    if outputs.dir {
        reveal_strlit("M");
        reveal_strlit(".out");
        reveal_strlit(".err");
        let stem = output_name(test, suffix, Seq::empty());
        assert(output_name(test, suffix, ".out"@) =~= stem + ".out"@);
        assert(output_name(test, suffix, ".err"@) =~= stem + ".err"@);
        assert(stem[0] == 'M');
        let path = path_joined(outputs.base, stem);
        let out = path + ".out"@;
        let err = path + ".err"@;
        assert(outputs.out_path(test, suffix) =~= out);
        assert(outputs.err_path(test, suffix) =~= err);
        assert(out[path.len() as int + 1] == 'o' && err[path.len() as int + 1] == 'e');
    }
}

/// The name of an output's file, part by part from the front.
proof fn lemma_name_parts(test: TestRegisryItem, tail: Seq<char>) -> (parts: Seq<Seq<char>>)
    ensures
        parts.len() == 4,
        output_name(test, tail, Seq::empty()) == "M"@ + (hex(test.uid.module_id.0 as nat, 8)
            + parts[0]),
        parts[0] == "-F"@ + (hex(test.uid.function_id.0 as nat, 8) + parts[1]),
        parts[1] == "-"@ + (dec(test.thread_lid.0 as nat) + parts[2]),
        parts[2] == "-"@ + (dec(test.call_index.0 as nat) + parts[3]),
        parts[3] == "-"@ + (dec(test.packet_index.0 as nat) + tail),
{
    let p3 = "-"@ + (dec(test.packet_index.0 as nat) + tail);
    let p2 = "-"@ + (dec(test.call_index.0 as nat) + p3);
    let p1 = "-"@ + (dec(test.thread_lid.0 as nat) + p2);
    let p0 = "-F"@ + (hex(test.uid.function_id.0 as nat, 8) + p1);
    assert(output_name(test, tail, Seq::empty()) =~= "M"@ + (hex(test.uid.module_id.0 as nat, 8)
        + p0));
    seq![p0, p1, p2, p3]
}

proof fn lemma_names_tell_tests_apart(a: TestRegisryItem, b: TestRegisryItem, tail: Seq<char>)
    requires
        output_name(a, tail, Seq::empty()) == output_name(b, tail, Seq::empty()),
        tail.len() > 0,
        !is_digit(tail[0]),
    ensures
        a.uid.module_id.0 == b.uid.module_id.0,
        a.uid.function_id.0 == b.uid.function_id.0,
        a.thread_lid.0 == b.thread_lid.0,
        a.call_index.0 == b.call_index.0,
        a.packet_index.0 == b.packet_index.0,
{
    reveal_strlit("-");
    lemma_hex_ranges();
    let x = lemma_name_parts(a, tail);
    let y = lemma_name_parts(b, tail);
    let (m, n) = (a.uid.module_id.0 as nat, b.uid.module_id.0 as nat);
    let (f, g) = (a.uid.function_id.0 as nat, b.uid.function_id.0 as nat);
    law_hexadecimal_is_read_back(m, 8);
    law_hexadecimal_is_read_back(n, 8);
    law_hexadecimal_is_read_back(f, 8);
    law_hexadecimal_is_read_back(g, 8);
    lemma_same_parts("M"@, hex(m, 8) + x[0], "M"@, hex(n, 8) + y[0]);
    lemma_same_parts(hex(m, 8), x[0], hex(n, 8), y[0]);
    lemma_same_parts("-F"@, hex(f, 8) + x[1], "-F"@, hex(g, 8) + y[1]);
    lemma_same_parts(hex(f, 8), x[1], hex(g, 8), y[1]);
    let (t, u) = (a.thread_lid.0 as nat, b.thread_lid.0 as nat);
    lemma_same_parts("-"@, dec(t) + x[2], "-"@, dec(u) + y[2]);
    law_decimal_is_unambiguous(t, x[2], u, y[2]);
    let (c, d) = (a.call_index.0 as nat, b.call_index.0 as nat);
    lemma_same_parts("-"@, dec(c) + x[3], "-"@, dec(d) + y[3]);
    law_decimal_is_unambiguous(c, x[3], d, y[3]);
    let (p, q) = (a.packet_index.0 as nat, b.packet_index.0 as nat);
    lemma_same_parts("-"@, dec(p) + tail, "-"@, dec(q) + tail);
    law_decimal_is_unambiguous(p, tail, q, tail);
}

/// Tests do not write over each other's outputs: in a directory, where the outputs of two tests go
/// to the same file, the tests are of the same module, function, thread, call and packet.
///
/// What is put behind the name must not start with a digit.
pub proof fn law_tests_have_outputs_of_their_own(
    outputs: OutputModel,
    a: TestRegisryItem,
    b: TestRegisryItem,
    suffix: Seq<char>,
)
    requires
        outputs.dir,
        suffix.len() == 0 || !is_digit(suffix[0]),
        outputs.out_path(a, suffix) == outputs.out_path(b, suffix) || outputs.err_path(a, suffix)
            == outputs.err_path(b, suffix),
    ensures
        a.uid.module_id.0 == b.uid.module_id.0,
        a.uid.function_id.0 == b.uid.function_id.0,
        a.thread_lid.0 == b.thread_lid.0,
        a.call_index.0 == b.call_index.0,
        a.packet_index.0 == b.packet_index.0,
{
    reveal_strlit("M");
    reveal_strlit(".out");
    reveal_strlit(".err");
    let ending = if outputs.out_path(a, suffix) == outputs.out_path(b, suffix) {
        ".out"@
    } else {
        ".err"@
    };
    let tail = suffix + ending;
    let (x, y) = (output_name(a, suffix, ending), output_name(b, suffix, ending));
    assert(x =~= output_name(a, tail, Seq::empty()));
    assert(y =~= output_name(b, tail, Seq::empty()));
    assert(x[0] == 'M' && y[0] == 'M');
    let front = if outputs.base.len() == 0 || outputs.base.last() == '/' {
        outputs.base
    } else {
        outputs.base + "/"@
    };
    assert(path_joined(outputs.base, x) =~= front + x);
    assert(path_joined(outputs.base, y) =~= front + y);
    lemma_same_parts(front, x, front, y);
    lemma_names_tell_tests_apart(a, b, tail);
}

/// Checkpoints are kept apart: different ones go to different directories.
pub proof fn law_checkpoints_have_directories_of_their_own(outputs: OutputModel, i: nat, j: nat)
    requires
        outputs.dump_path(i) == outputs.dump_path(j),
    ensures
        i == j,
{
    lemma_dec_is_digits(i);
    lemma_dec_is_digits(j);
    let dir = outputs.criu_dumps_dir;
    let front = if dir.len() == 0 || dir.last() == '/' {
        dir
    } else {
        dir + "/"@
    };
    assert(path_joined(dir, dec(i)) =~= front + dec(i));
    assert(path_joined(dir, dec(j)) =~= front + dec(j));
    lemma_same_parts(front, dec(i), front, dec(j));
    let none = Seq::<char>::empty();
    assert(dec(i) + none =~= dec(j) + none);
    law_decimal_is_unambiguous(i, none, j, none);
}

/// What storing the outputs after the checkpoint of a program that ran from the start copies away,
/// restoring that checkpoint copies back: each file from where it was stored to where it was.
pub proof fn law_restoring_reverses_the_stored_copies(
    outputs: OutputModel,
    test: TestRegisryItem,
    before: Option<PathsModel>,
    plan: StorePlan,
)
    requires
        stored_after_checkpoint(outputs, true, test, before, Ok(plan)),
    ensures
        plan.paths is Some,
        ({
            let away = copies_model(plan.copies@);
            let back = restore_copies(plan.paths->Some_0@);
            &&& away.len() == 2 && back.len() == 2
            &&& back[0].0 == away[0].1 && back[0].1 == away[0].0
            &&& back[1].0 == away[1].1 && back[1].1 == away[1].0
            &&& away[0].0 == outputs.out_path(test, ""@)
            &&& away[1].0 == outputs.err_path(test, ""@)
        }),
{
}

/// What is kept of a restored test is what the next checkpoint is stored from, and what is stored
/// is copied back to where every restored program expects its outputs: from a checkpoint to the
/// next one, no output is lost on the way.
pub proof fn law_outputs_are_handed_on(
    outputs: OutputModel,
    test: TestRegisryItem,
    before: PathsModel,
    plan: StorePlan,
)
    requires
        stored_after_checkpoint(outputs, false, test, Some(before), Ok(plan)),
    ensures
        plan.paths is Some,
        ({
            let kept = persist_copies(
                before,
                outputs.out_path(test, "-per"@),
                outputs.err_path(test, "-per"@),
            );
            let away = copies_model(plan.copies@);
            let back = restore_copies(plan.paths->Some_0@);
            &&& away.len() == 2 && back.len() == 2 && kept.len() == 2
            &&& away[0].0 == kept[0].1 && away[1].0 == kept[1].1
            &&& back[0].0 == away[0].1 && back[1].0 == away[1].1
            &&& back[0].1 == kept[0].0 && back[1].1 == kept[1].0
            &&& kept[0].0 == before.criu_expected.0 && kept[1].0 == before.criu_expected.1
        }),
{
}

/// What a checkpoint of a program that ran from the start stores, a restoration puts back to
/// exactly where it was.
pub proof fn law_restoring_undoes_storing(
    outputs: OutputModel,
    test: TestRegisryItem,
    paths: PathsModel,
)
    requires
        outputs.stored(test) is Some,
        paths.originals == outputs.stored(test)->Some_0,
        paths.criu_expected == outputs.at_checkpoint(true, test),
    ensures
        ({
            let at = outputs.at_checkpoint(true, test);
            let stored = outputs.stored(test)->Some_0;
            restore_copies(paths) == seq![(stored.0, at.0), (stored.1, at.1)]
        }),
{
}

/// The outputs of a checkpoint made from a restored program are those that were persisted
/// after its restoration, and they go back to where every restored program expects them.
pub proof fn law_later_checkpoints_follow_the_persisted_outputs(
    outputs: OutputModel,
    test: TestRegisryItem,
    before: PathsModel,
    after: PathsModel,
)
    requires
        outputs.stored(test) is Some,
        after.originals == outputs.stored(test)->Some_0,
        after.criu_expected == before.criu_expected,
    ensures
        ({
            let at = outputs.at_checkpoint(false, test);
            let persisted = persist_copies(
                before,
                outputs.out_path(test, "-per"@),
                outputs.err_path(test, "-per"@),
            );
            &&& persisted[0].1 == at.0 && persisted[1].1 == at.1
            &&& restore_copies(after)[0].1 == persisted[0].0
            &&& restore_copies(after)[1].1 == persisted[1].0
        }),
{
}

} // verus!
