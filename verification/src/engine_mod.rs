//! A small mod: one task, and what it does on the events of an engine.

use vstd::prelude::*;

use crate::text::{concat, concat3, ends, same_text, views};

verus! {

/// The largest iteration count for which [`FibTask::run_cpu`] stays within 64
/// bits.
pub const MAX_ITER: u64 = 92;

/// Names a task or a handler within a namespace.
#[derive(Debug)]
pub struct Identifier {
    pub namespace: String,
    pub name: String,
}

impl View for Identifier {
    type V = (Seq<char>, Seq<char>);

    open spec fn view(&self) -> (Seq<char>, Seq<char>) {
        (self.namespace@, self.name@)
    }
}

impl Identifier {
    fn in_engine_mod(name: &str) -> (id: Identifier)
        ensures
            id@ == ("engine_mod"@, name@),
    {
        Identifier { namespace: "engine_mod".to_owned(), name: name.to_owned() }
    }
}

/// The Fibonacci numbers: 0, 1, and then each the sum of the two before it.
pub open spec fn fibonacci(n: nat) -> nat
    decreases n,
{
    if n < 2 {
        n
    } else {
        fibonacci((n - 1) as nat) + fibonacci((n - 2) as nat)
    }
}

proof fn lemma_fibonacci_grows(m: nat, n: nat)
    requires
        m <= n,
    ensures
        fibonacci(m) <= fibonacci(n),
    decreases n,
{
    if m < n {
        lemma_fibonacci_grows(m, (n - 1) as nat);
    }
}

/// A task that computes a Fibonacci number.
#[derive(Debug, Clone)]
pub struct FibTask {
    pub iter: u64,
    pub result: u64,
}

impl Default for FibTask {
    fn default() -> (task: FibTask)
        ensures
            task == (FibTask { iter: 0, result: 0 }),
    {
        FibTask { iter: 0, result: 0 }
    }
}

impl FibTask {
    /// What the task is registered as.
    pub fn get_id(&self) -> (id: Identifier)
        ensures
            id@ == ("engine_mod"@, "fib"@),
    {
        Identifier::in_engine_mod("fib")
    }

    /// Computes the Fibonacci number that `iter` asks for. The number after it
    /// has to fit into 64 bits too.
    pub fn run_cpu(&mut self)
        requires
            fibonacci((old(self).iter + 1) as nat) <= u64::MAX,
        ensures
            final(self).iter == old(self).iter,
            final(self).result == fibonacci(old(self).iter as nat),
    {
        let mut a: u64 = 0;
        let mut b: u64 = 1;
        let mut done: u64 = 0;
        while done < self.iter
            invariant
                self.iter == old(self).iter,
                done <= self.iter,
                a == fibonacci(done as nat),
                b == fibonacci((done + 1) as nat),
                fibonacci((self.iter + 1) as nat) <= u64::MAX,
            decreases self.iter - done,
        {
            let tmp: u64 = a;
            proof {
                lemma_fibonacci_grows((done + 2) as nat, (self.iter + 1) as nat);
            }
            a = b;
            b += tmp;
            done += 1;
        }
        self.result = a;
    }
}

proof fn lemma_ten_later(n: nat)
    ensures
        fibonacci(n + 10) == 34 * fibonacci(n) + 55 * fibonacci(n + 1),
        fibonacci(n + 11) == 55 * fibonacci(n) + 89 * fibonacci(n + 1),
{
    assert(fibonacci(n + 2) == fibonacci(n + 1) + fibonacci(n));
    assert(fibonacci(n + 3) == fibonacci(n + 2) + fibonacci(n + 1));
    assert(fibonacci(n + 4) == fibonacci(n + 3) + fibonacci(n + 2));
    assert(fibonacci(n + 5) == fibonacci(n + 4) + fibonacci(n + 3));
    assert(fibonacci(n + 6) == fibonacci(n + 5) + fibonacci(n + 4));
    assert(fibonacci(n + 7) == fibonacci(n + 6) + fibonacci(n + 5));
    assert(fibonacci(n + 8) == fibonacci(n + 7) + fibonacci(n + 6));
    assert(fibonacci(n + 9) == fibonacci(n + 8) + fibonacci(n + 7));
    assert(fibonacci(n + 10) == fibonacci(n + 9) + fibonacci(n + 8));
    assert(fibonacci(n + 11) == fibonacci(n + 10) + fibonacci(n + 9));
}

/// The task can be run up to [`MAX_ITER`], and not beyond.
pub proof fn law_task_runs_up_to_the_limit(iter: nat)
    ensures
        fibonacci(iter + 1) <= u64::MAX <==> iter <= MAX_ITER,
{
    assert(fibonacci(3) == 2 && fibonacci(4) == 3) by {
        reveal_with_fuel(fibonacci, 4);
    }
    lemma_ten_later(3);
    lemma_ten_later(13);
    lemma_ten_later(23);
    lemma_ten_later(33);
    lemma_ten_later(43);
    lemma_ten_later(53);
    lemma_ten_later(63);
    lemma_ten_later(73);
    lemma_ten_later(83);
    assert(fibonacci(93) == 12200160415121876738);
    assert(fibonacci(94) == 19740274219868223167);
    if iter <= MAX_ITER {
        lemma_fibonacci_grows(iter + 1, 93);
    } else {
        lemma_fibonacci_grows(94, iter + 1);
    }
}

/// What a mod says of itself.
#[derive(Debug)]
pub struct LibraryMetadata {
    pub mod_id: String,
    pub mod_author: String,
    pub mod_name: String,
    pub mod_version: String,
}

/// What this mod says of itself.
pub fn metadata() -> (meta: LibraryMetadata)
    ensures
        meta.mod_id@ == "engine_mod"@,
        meta.mod_author@ == "@ign-styly"@,
        meta.mod_name@ == "Engine mod Demo"@,
        meta.mod_version@ == "0.0.1"@,
{
    LibraryMetadata {
        mod_id: "engine_mod".to_owned(),
        mod_author: "@ign-styly".to_owned(),
        mod_name: "Engine mod Demo".to_owned(),
        mod_version: "0.0.1".to_owned(),
    }
}

/// An event that this mod fires and handles.
#[derive(Debug, Clone)]
pub struct CustomEvent {
    pub cancelled: bool,
    pub message: String,
}

/// What is logged of a [`CustomEvent`].
pub fn on_custom(event: &CustomEvent) -> (line: String)
    ensures
        line@ == "custom_event: "@ + event.message@,
{
    concat("custom_event: ", event.message.as_str())
}

/// Whether a call is one to this mod.
pub open spec fn is_own_call(handler_id: (Seq<char>, Seq<char>)) -> bool {
    handler_id == ("engine_mod"@, "grpc"@)
}

/// Whether a call is one to this mod.
pub fn handles_call(handler_id: &Identifier) -> (own: bool)
    ensures
        own == is_own_call(handler_id@),
{
    same_text(handler_id.namespace.as_str(), "engine_mod") && same_text(
        handler_id.name.as_str(),
        "grpc",
    )
}

/// The output of a call after this mod has seen it.
pub open spec fn answered(
    handler_id: (Seq<char>, Seq<char>),
    payload: Seq<u8>,
    output: Seq<u8>,
) -> Seq<u8> {
    if is_own_call(handler_id) {
        output + payload
    } else {
        output
    }
}

/// Answers a call to this mod: the output is continued with the payload. A call
/// to anyone else leaves the output as it is, and nothing is logged of it.
pub fn on_cgrpc(handler_id: &Identifier, payload: &Vec<u8>, output: &mut Vec<u8>) -> (line: Option<
    String,
>)
    ensures
        final(output)@ == answered(handler_id@, payload@, old(output)@),
        if is_own_call(handler_id@) {
            line matches Some(text) && text@ == "handled cgrpc_event for engine_mod.grpc"@
        } else {
            line is None
        },
{
    if handles_call(handler_id) {
        output.extend_from_slice(payload.as_slice());
        assert(output@ =~= old(output)@ + payload@);
        Some("handled cgrpc_event for engine_mod.grpc".to_owned())
    } else {
        None
    }
}

/// What is logged of a mod that was loaded.
pub open spec fn loaded_line(module: LibraryMetadata) -> Seq<char> {
    "Module loaded: "@ + module.mod_id@ + " ("@ + module.mod_name@ + ")"@
}

/// What is logged when an engine has started.
pub open spec fn start_lines(modules: Seq<LibraryMetadata>, meta: LibraryMetadata) -> Seq<
    Seq<char>,
> {
    modules.map_values(|module: LibraryMetadata| loaded_line(module)).push(
        "StartEvent handled by "@ + meta.mod_name@ + " by "@ + meta.mod_author@,
    )
}

/// What is logged when an engine has started: a line for each mod, and one for
/// the mod that handles the event.
pub fn on_start(modules: &Vec<LibraryMetadata>, meta: &LibraryMetadata) -> (lines: Vec<String>)
    ensures
        views(lines@) == start_lines(modules@, *meta),
{
    let ghost wanted = modules@.map_values(|module: LibraryMetadata| loaded_line(module));
    let mut lines: Vec<String> = Vec::new();
    let mut i: usize = 0;
    while i < modules.len()
        invariant
            i <= modules@.len(),
            wanted == modules@.map_values(|module: LibraryMetadata| loaded_line(module)),
            views(lines@) =~= wanted.take(i as int),
        decreases modules@.len() - i,
    {
        let ghost before = views(lines@);
        let named = concat3("Module loaded: ", modules[i].mod_id.as_str(), " (");
        lines.push(concat3(named.as_str(), modules[i].mod_name.as_str(), ")"));
        proof {
            assert(views(lines@) =~= before.push(loaded_line(modules@[i as int])));
            assert(wanted.take(i + 1) =~= wanted.take(i as int).push(wanted[i as int]));
        }
        i += 1;
    }
    let ghost before = views(lines@);
    let handled = concat3("StartEvent handled by ", meta.mod_name.as_str(), " by ");
    lines.push(concat(handled.as_str(), meta.mod_author.as_str()));
    assert(wanted.take(i as int) =~= wanted);
    assert(views(lines@) =~= before.push(
        "StartEvent handled by "@ + meta.mod_name@ + " by "@ + meta.mod_author@,
    ));
    lines
}

/// What this mod asks an engine to do.
#[derive(Debug)]
pub enum ModAction {
    /// Register a task.
    Register { task: FibTask, id: Identifier },
    /// Log a line.
    Log(String),
    /// Fire an event.
    Fire(CustomEvent),
}

/// What this mod does when it is loaded, in order.
pub fn run() -> (actions: Vec<ModAction>)
    ensures
        actions@.len() == 3,
        actions@[0] matches ModAction::Register { task, id } && task == (FibTask {
            iter: 0,
            result: 0,
        }) && id@ == ("engine_mod"@, "fib"@),
        actions@[1] matches ModAction::Log(line) && line@ == "Hello world from mod!"@,
        actions@[2] matches ModAction::Fire(event) && !event.cancelled && event.message@
            == "hello from engine_mod"@,
{
    let event = CustomEvent { cancelled: false, message: "hello from engine_mod".to_owned() };
    vec![
        ModAction::Register { task: FibTask::default(), id: Identifier::in_engine_mod("fib") },
        ModAction::Log("Hello world from mod!".to_owned()),
        ModAction::Fire(event),
    ]
}

/// Each Fibonacci number is the sum of the two before it, and the first are 0
/// and 1.
pub proof fn law_number_is_the_sum_of_the_two_before(n: nat)
    ensures
        fibonacci(0) == 0,
        fibonacci(1) == 1,
        fibonacci(n + 2) == fibonacci(n) + fibonacci(n + 1),
{
}

/// A call is one to this mod exactly where both its namespace and its name are
/// those that the mod registers its calls under.
pub proof fn law_own_call_is_told_by_both_parts(handler_id: (Seq<char>, Seq<char>))
    ensures
        is_own_call(handler_id) <==> handler_id.0 == "engine_mod"@ && handler_id.1 == "grpc"@,
{
}

/// A call to this mod is answered with what was there and the payload behind it,
/// and any other call is left as it is.
pub proof fn law_only_own_calls_are_answered(
    handler_id: (Seq<char>, Seq<char>),
    payload: Seq<u8>,
    output: Seq<u8>,
)
    ensures
        handler_id.0 == "engine_mod"@ && handler_id.1 == "grpc"@ ==> {
            let result = answered(handler_id, payload, output);
            &&& result.len() == output.len() + payload.len()
            &&& result.take(output.len() as int) == output
            &&& result.skip(output.len() as int) == payload
        },
        handler_id.0 != "engine_mod"@ || handler_id.1 != "grpc"@ ==> answered(
            handler_id,
            payload,
            output,
        ) == output,
{
    if is_own_call(handler_id) {
        let result = answered(handler_id, payload, output);
        assert(result.take(output.len() as int) =~= output);
        assert(result.skip(output.len() as int) =~= payload);
    }
}

/// When an engine has started there is one line for each mod, in order, which
/// names its id and its name, and one more, which names the mod that handles the
/// event and its author.
pub proof fn law_each_mod_has_its_line(
    modules: Seq<LibraryMetadata>,
    meta: LibraryMetadata,
    at: int,
)
    requires
        0 <= at < modules.len(),
    ensures
        start_lines(modules, meta).len() == modules.len() + 1,
        ends(
            start_lines(modules, meta)[at],
            modules[at].mod_id@ + " ("@ + modules[at].mod_name@ + ")"@,
        ),
        ends(start_lines(modules, meta).last(), meta.mod_name@ + " by "@ + meta.mod_author@),
        forall|other: LibraryMetadata|
            (#[trigger] loaded_line(other)).len() - other.mod_id@.len() - other.mod_name@.len()
                == loaded_line(meta).len() - meta.mod_id@.len() - meta.mod_name@.len(),
{
    let line = start_lines(modules, meta)[at];
    let tail = modules[at].mod_id@ + " ("@ + modules[at].mod_name@ + ")"@;
    assert(line.skip(line.len() - tail.len()) =~= tail);
    let last = start_lines(modules, meta).last();
    let end = meta.mod_name@ + " by "@ + meta.mod_author@;
    assert(last.skip(last.len() - end.len()) =~= end);
}

} // verus!
