//! The names of the shared resources, and how opening and closing them is judged.

use crate::shmem_capture::hooklib_commons::META_MEM_NAME;
use crate::shmem_capture::hooklib_commons::META_MEM_SIZE_NAME;
use crate::shmem_capture::hooklib_commons::META_SEM_ACK;
use crate::shmem_capture::hooklib_commons::META_SEM_DATA;
use crate::shmem_capture::hooklib_commons::TEST_SERVER_SOCKET_NAME;
use crate::text::texts;
use vstd::prelude::*;

verus! {

/// The names of the semaphores that count the free and the full buffers.
pub struct FreeFullSemNames {
    pub free: String,
    pub full: String,
}

/// The common part of the names of a stage's semaphores.
pub open spec fn sem_name(prefix: Seq<char>, stage: Seq<char>, id: Seq<char>) -> Seq<char> {
    prefix + "-"@ + stage + "-"@ + id
}

/// The names of the semaphores that count the free and the full buffers of a run.
pub open spec fn ring_semaphores(prefix: Seq<char>) -> (Seq<char>, Seq<char>) {
    let base = sem_name(prefix, "capture"@, "base"@);
    (base + "-semfree"@, base + "-semfull"@)
}

/// The name of the memory that holds the buffers of a run, with its terminating zero.
pub open spec fn ring_memory(prefix: Seq<char>) -> Seq<char> {
    prefix + "-capture-base-buffmem\0"@
}

/// The resources of a run have different names, and those of runs with different prefixes have,
/// too.
pub proof fn law_resources_have_their_own_names(a: Seq<char>, b: Seq<char>)
    ensures
        ring_semaphores(a).0 != ring_semaphores(a).1,
        ring_semaphores(a).0 == ring_semaphores(b).0 ==> a == b,
        ring_semaphores(a).1 == ring_semaphores(b).1 ==> a == b,
        ring_memory(a) == ring_memory(b) ==> a == b,
{
    reveal_strlit("-semfree");
    reveal_strlit("-semfull");
    let (x, y) = (ring_semaphores(a), ring_semaphores(b));
    let n = sem_name(a, "capture"@, "base"@).len() as int;
    assert(x.0[n + 5] == 'r' && x.1[n + 5] == 'u');
    if x.0 == y.0 {
        assert(a =~= x.0.subrange(0, a.len() as int));
        assert(a.len() == b.len());
        assert(b =~= y.0.subrange(0, b.len() as int));
    }
    if x.1 == y.1 {
        assert(a =~= x.1.subrange(0, a.len() as int));
        assert(a.len() == b.len());
        assert(b =~= y.1.subrange(0, b.len() as int));
    }
    if ring_memory(a) == ring_memory(b) {
        assert(a =~= ring_memory(a).subrange(0, a.len() as int));
        assert(a.len() == b.len());
        assert(b =~= ring_memory(b).subrange(0, b.len() as int));
    }
}

/// What a run creates is what cleaning up after it gets rid of: both semaphores and the memory of
/// its buffers, and the two semaphores, by their names without the terminating zero, and the two
/// memories of the channel for parameters.
pub proof fn law_cleanup_covers_what_is_created(prefix: Seq<char>)
    ensures
        semaphores_to_clean(prefix).contains(ring_semaphores(prefix).0),
        semaphores_to_clean(prefix).contains(ring_semaphores(prefix).1),
        memories_to_clean(prefix).contains(ring_memory(prefix)),
        exists|i: int|
            0 <= i < semaphores_to_clean(prefix).len() && #[trigger] semaphores_to_clean(prefix)[i]
                + "\0"@ == META_SEM_DATA@,
        exists|i: int|
            0 <= i < semaphores_to_clean(prefix).len() && #[trigger] semaphores_to_clean(prefix)[i]
                + "\0"@ == META_SEM_ACK@,
        memories_to_clean(prefix).contains(META_MEM_NAME@),
        memories_to_clean(prefix).contains(META_MEM_SIZE_NAME@),
{
    reveal_strlit("/llcap-meta-sem-data\0");
    reveal_strlit("/llcap-meta-sem-ack\0");
    reveal_strlit("\0");
    let (s, m) = (semaphores_to_clean(prefix), memories_to_clean(prefix));
    assert(s[0] == ring_semaphores(prefix).0);
    assert(s[1] == ring_semaphores(prefix).1);
    assert(s[2] + "\0"@ =~= META_SEM_DATA@);
    assert(s[3] + "\0"@ =~= META_SEM_ACK@);
    assert(m[0] == META_MEM_NAME@);
    assert(m[1] == ring_memory(prefix));
    assert(m[2] == META_MEM_SIZE_NAME@);
}

impl FreeFullSemNames {
    /// The names for a stage.
    pub fn new(prefix: &str, stage: &str, id: &str) -> (r: Self)
        ensures
            r.free@ == sem_name(prefix@, stage@, id@) + "-semfree"@,
            r.full@ == sem_name(prefix@, stage@, id@) + "-semfull"@,
    {
        let base = prefix.to_owned().concat("-").concat(stage).concat("-").concat(id);
        let free = base.clone().concat("-semfree");
        let full = base.concat("-semfull");
        FreeFullSemNames { free, full }
    }
}

/// The name of the memory that holds the buffers, with its terminating zero.
pub fn get_shmem_name(prefix: &str) -> (name: String)
    ensures
        name@ == prefix@ + "-capture-base-buffmem\0"@,
        name@ == ring_memory(prefix@),
{
    prefix.to_owned().concat("-capture-base-buffmem\0")
}

/// The name and the size of the memory that holds the buffers.
pub fn init_shmem(prefix: &str, buff_count: u32, buff_len: u32) -> (r: (String, u32))
    requires
        buff_count * buff_len <= u32::MAX,
    ensures
        r.0@ == prefix@ + "-capture-base-buffmem\0"@,
        r.0@ == ring_memory(prefix@),
        r.1 == buff_count * buff_len,
{
    (get_shmem_name(prefix), buff_count * buff_len)
}

/// What stands before the last character, which is the terminating zero. None if there is
/// no last character.
pub fn without_terminator(name: &str) -> (r: Option<String>)
    ensures
        r is Some <==> name@.len() > 0,
        r matches Some(text) ==> text@ == name@.drop_last(),
{
    let len = name.unicode_len();
    if len == 0 {
        None
    } else {
        let text = name.substring_char(0, len - 1).to_owned();
        proof {
            assert(text@ =~= name@.drop_last());
        }
        Some(text)
    }
}

/// The text in front of the first zero character, if there is one.
pub open spec fn before_zero(name: Seq<char>) -> Option<Seq<char>>
    decreases name.len(),
{
    if name.len() == 0 {
        None
    } else if name[0] == '\0' {
        Some(Seq::empty())
    } else {
        match before_zero(name.subrange(1, name.len() as int)) {
            Some(rest) => Some(seq![name[0]] + rest),
            None => None,
        }
    }
}

proof fn lemma_before_zero(name: Seq<char>, at: int)
    requires
        0 <= at <= name.len(),
        forall|i: int| 0 <= i < at ==> name[i] != '\0',
        at < name.len() ==> name[at] == '\0',
    ensures
        before_zero(name) == if at < name.len() {
            Some(name.subrange(0, at))
        } else {
            None
        },
    decreases at,
{
    if at > 0 {
        let rest = name.subrange(1, name.len() as int);
        lemma_before_zero(rest, at - 1);
        if at < name.len() {
            assert(seq![name[0]] + rest.subrange(0, at - 1) =~= name.subrange(0, at));
        }
    } else if name.len() > 0 {
        assert(name.subrange(0, 0) =~= Seq::<char>::empty());
    }
}

/// A text that is terminated by a zero is read back, whatever stands behind the zero, and without
/// a zero there is nothing to read.
pub proof fn law_terminated_text_is_read_back(text: Seq<char>, after: Seq<char>)
    requires
        forall|i: int| 0 <= i < text.len() ==> #[trigger] text[i] != '\0',
    ensures
        before_zero(text + seq!['\0'] + after) == Some(text),
        before_zero(text) is None,
{
    let whole = text + seq!['\0'] + after;
    assert forall|i: int| 0 <= i < text.len() implies whole[i] != '\0' by {
        assert(whole[i] == text[i]);
    }
    lemma_before_zero(whole, text.len() as int);
    assert(whole.subrange(0, text.len() as int) =~= text);
    lemma_before_zero(text, text.len() as int);
}

/// The text in front of the first zero character, if there is one.
pub fn null_terminated_to_string(name: &str) -> (r: Option<String>)
    ensures
        r is Some <==> before_zero(name@) is Some,
        r matches Some(text) ==> Some(text@) == before_zero(name@),
{
    let len = name.unicode_len();
    let mut i: usize = 0;
    while i < len
        invariant
            i <= len,
            len == name@.len(),
            forall|j: int| 0 <= j < i ==> name@[j] != '\0',
        decreases len - i,
    {
        if name.get_char(i) == '\0' {
            proof {
                lemma_before_zero(name@, i as int);
            }
            return Some(name.substring_char(0, i).to_owned());
        }
        i += 1;
    }
    proof {
        lemma_before_zero(name@, i as int);
    }
    None
}

/// returns the path to the socket used to communicate with test instances
/// (e.g. supply function argument values, communicate start/end of a test session)
pub fn test_server_socket() -> (path: String)
    ensures
        path@ == "/tmp/llcap-test-server"@,
{
    proof {
        reveal_strlit("/tmp/llcap-test-server\0");
        reveal_strlit("/tmp/llcap-test-server");
        lemma_before_zero(TEST_SERVER_SOCKET_NAME@, 22);
        assert(TEST_SERVER_SOCKET_NAME@.subrange(0, 22) =~= "/tmp/llcap-test-server"@);
    }
    match null_terminated_to_string(TEST_SERVER_SOCKET_NAME) {
        Some(path) => path,
        None => String::new(),
    }
}

/// What to do to get rid of everything that an earlier run may have left behind.
pub struct CleanupPlan {
    /// semaphores to open, close and destroy
    pub semaphores: Vec<String>,
    /// shared memory to unlink
    pub memories: Vec<String>,
    /// the socket to remove
    pub socket: String,
}

/// The semaphores of a run with the given prefix.
pub open spec fn semaphores_to_clean(prefix: Seq<char>) -> Seq<Seq<char>> {
    seq![
        sem_name(prefix, "capture"@, "base"@) + "-semfree"@,
        sem_name(prefix, "capture"@, "base"@) + "-semfull"@,
        META_SEM_DATA@.drop_last(),
        META_SEM_ACK@.drop_last(),
    ]
}

/// The shared memory of a run with the given prefix.
pub open spec fn memories_to_clean(prefix: Seq<char>) -> Seq<Seq<char>> {
    seq![META_MEM_NAME@, prefix + "-capture-base-buffmem\0"@, META_MEM_SIZE_NAME@]
}

/// The semaphores of a run with the given prefix.
pub fn cleanup_sems(prefix: &str) -> (names: Vec<String>)
    ensures
        texts(names@) == semaphores_to_clean(prefix@),
{
    proof {
        reveal_strlit("/llcap-meta-sem-data\0");
        reveal_strlit("/llcap-meta-sem-ack\0");
    }
    let mut names: Vec<String> = Vec::new();
    let FreeFullSemNames { free, full } = FreeFullSemNames::new(prefix, "capture", "base");
    match (without_terminator(META_SEM_DATA), without_terminator(META_SEM_ACK)) {
        (Some(data), Some(ack)) => {
            names.push(free);
            names.push(full);
            names.push(data);
            names.push(ack);
        },
        _ => {},
    }
    proof {
        assert(texts(names@) =~= semaphores_to_clean(prefix@));
    }
    names
}

/// The shared memory of a run with the given prefix.
pub fn cleanup_shared_mem(prefix: &str) -> (names: Vec<String>)
    ensures
        texts(names@) == memories_to_clean(prefix@),
{
    let mut names: Vec<String> = Vec::new();
    names.push(META_MEM_NAME.to_owned());
    names.push(get_shmem_name(prefix));
    names.push(META_MEM_SIZE_NAME.to_owned());
    proof {
        assert(texts(names@) =~= memories_to_clean(prefix@));
    }
    names
}

/// Everything that a run with the given prefix may have left behind.
pub fn cleanup(prefix: &str) -> (plan: CleanupPlan)
    ensures
        texts(plan.semaphores@) == semaphores_to_clean(prefix@),
        texts(plan.memories@) == memories_to_clean(prefix@),
        plan.socket@ == "/tmp/llcap-test-server"@,
{
    CleanupPlan {
        semaphores: cleanup_sems(prefix),
        memories: cleanup_shared_mem(prefix),
        socket: test_server_socket(),
    }
}

/// A message with a text put in front.
pub open spec fn prefixed(front: Seq<char>, r: Result<(), String>, out: Result<(), String>) -> bool {
    match (r, out) {
        (Ok(_), Ok(_)) => true,
        (Err(e), Err(f)) => f@ == front + e@,
        _ => false,
    }
}

fn prefix_error(front: &str, r: Result<(), String>) -> (out: Result<(), String>)
    ensures
        prefixed(front@, r, out),
{
    match r {
        Ok(()) => Ok(()),
        Err(e) => Err(front.to_owned().concat(e.as_str())),
    }
}

/// Closing a semaphore and then destroying it: the first failure counts, and what is not
/// closed is not destroyed.
pub fn deinit_semaphore_single(closed: Result<(), String>, destroyed: Result<(), String>) -> (r:
    Result<(), String>)
    ensures
        r == if closed is Err {
            closed
        } else {
            destroyed
        },
{
    match closed {
        Ok(()) => destroyed,
        Err(e) => Err(e),
    }
}

/// Getting rid of the two semaphores, the free one first. The second one is left alone
/// where the first one failed.
pub fn deinit_semaphores(free: Result<(), String>, full: Result<(), String>) -> (r: Result<
    (),
    String,
>)
    ensures
        free is Ok && full is Ok ==> r is Ok,
        free is Err ==> r is Err && r->Err_0@ == "When closing full semaphore: "@ + (
        "When closing free semaphore: "@ + free->Err_0@),
        free is Ok && full is Err ==> r is Err && r->Err_0@ == "When closing full semaphore: "@
            + full->Err_0@,
{
    let first = prefix_error("When closing free semaphore: ", free);
    let both = match first {
        Ok(()) => full,
        Err(e) => Err(e),
    };
    prefix_error("When closing full semaphore: ", both)
}

/// Unmapping the memory of the buffers.
pub fn deinit_shmem(unmapped: Result<(), String>) -> (r: Result<(), String>)
    ensures
        prefixed("deinit_shmem failed: "@, unmapped, r),
{
    prefix_error("deinit_shmem failed: ", unmapped)
}

/// Opening the two semaphores: the first failure counts. Where only the second one failed,
/// the first one was closed again, with the outcome `cleaned`.
pub fn init_semaphores(
    free: Result<(), String>,
    full: Result<(), String>,
    cleaned: Result<(), String>,
) -> (r: Result<(), String>)
    ensures
        free is Err ==> r == free,
        free is Ok && full is Ok ==> r is Ok,
        free is Ok && full is Err && cleaned is Ok ==> r == full,
        free is Ok && full is Err && cleaned is Err ==> r is Err && r->Err_0@
            == "Failed cleanup after FULL semaphore init failure: "@ + cleaned->Err_0@
            + ", init failure: "@ + full->Err_0@,
{
    match free {
        Err(e) => Err(e),
        Ok(()) => match full {
            Ok(()) => Ok(()),
            Err(e) => match cleaned {
                Ok(()) => Err(e),
                Err(e2) => Err(
                    "Failed cleanup after FULL semaphore init failure: ".to_owned().concat(
                        e2.as_str(),
                    ).concat(", init failure: ").concat(e.as_str()),
                ),
            },
        },
    }
}

} // verus!
