//! Log lines, and the report of the results.

use crate::modmap::ExtModuleMap;
use crate::stages::test_protocol::status_text;
use crate::stages::test_protocol::LogResult;
use crate::stages::test_protocol::ResultModel;
use crate::text::center;
use crate::text::centered;
use crate::text::dec;
use crate::text::decimal;
use crate::text::hex;
use crate::text::hex_bytes;
use crate::text::hex_of_bytes;
use crate::text::law_centered_text_is_kept;
use crate::text::law_decimal_is_unambiguous;
use crate::text::law_hexadecimal_is_read_back;
use crate::text::lemma_dec_is_digits;
use crate::text::lemma_hex_is_digits;
use crate::text::lemma_hex_ranges;
use crate::text::lemma_same_parts;
use crate::text::lemma_shows_behind;
use crate::text::lemma_shows_between;
use crate::text::lemma_shows_more;
use crate::text::same_text;
use crate::text::shows;
use crate::text::without_blanks;
use vstd::prelude::*;

verus! {

/// How important a line is.
#[derive(Debug, Clone, Copy, PartialEq, Eq, Structural, Hash)]
pub enum LogLevel {
    Critical,
    Warn,
    Info,
    Trace,
}

/// The level with a number: all numbers from three on are the last level.
pub open spec fn level_of(value: u8) -> LogLevel {
    if value == 0 {
        LogLevel::Critical
    } else if value == 1 {
        LogLevel::Warn
    } else if value == 2 {
        LogLevel::Info
    } else {
        LogLevel::Trace
    }
}

/// The number of a level.
pub open spec fn level_number(level: LogLevel) -> u8 {
    match level {
        LogLevel::Critical => 0,
        LogLevel::Warn => 1,
        LogLevel::Info => 2,
        LogLevel::Trace => 3,
    }
}

impl From<u8> for LogLevel {
    fn from(value: u8) -> (r: Self) {
        match value {
            0 => LogLevel::Critical,
            1 => LogLevel::Warn,
            2 => LogLevel::Info,
            _ => LogLevel::Trace,
        }
    }
}

impl vstd::std_specs::convert::FromSpecImpl<u8> for LogLevel {
    open spec fn obeys_from_spec() -> bool {
        true
    }

    open spec fn from_spec(value: u8) -> Self {
        level_of(value)
    }
}

impl From<LogLevel> for u8 {
    fn from(value: LogLevel) -> (r: Self) {
        match value {
            LogLevel::Critical => 0,
            LogLevel::Warn => 1,
            LogLevel::Info => 2,
            LogLevel::Trace => 3,
        }
    }
}

impl vstd::std_specs::convert::FromSpecImpl<LogLevel> for u8 {
    open spec fn obeys_from_spec() -> bool {
        true
    }

    open spec fn from_spec(value: LogLevel) -> Self {
        level_number(value)
    }
}

/// A level keeps its number, and a number up to three keeps its level.
pub proof fn law_levels_have_their_numbers(level: LogLevel, value: u8)
    ensures
        level_of(level_number(level)) == level,
        value <= 3 ==> level_number(level_of(value)) == value,
{
}

/// How verbose the log is.
#[derive(Debug, Clone, Copy, PartialEq, Eq, Structural)]
pub struct Log {
    verbosity: u8,
}

/// What stands in front of a line of the level.
pub open spec fn preamble(lvl: LogLevel) -> Seq<char> {
    match lvl {
        LogLevel::Critical => "C |"@,
        LogLevel::Warn => "W |"@,
        LogLevel::Info => "I |"@,
        LogLevel::Trace => "T |"@,
    }
}

/// A line of the level is written at the verbosity.
pub open spec fn shown(lvl: LogLevel, verbosity: u8) -> bool {
    level_number(lvl) <= level_number(level_of(verbosity))
}

impl Log {
    /// The verbosity.
    pub closed spec fn verbosity(&self) -> u8 {
        self.verbosity
    }

    /// Only the most important lines are written.
    pub fn new() -> (r: Self)
        ensures
            r.verbosity() == 0,
    {
        Log { verbosity: 0 }
    }

    /// Sets the verbosity and returns the one before.
    pub fn set_verbosity(&mut self, verbosity: u8) -> (before: u8)
        ensures
            before == old(self).verbosity(),
            final(self).verbosity() == verbosity,
    {
        let before = self.verbosity;
        self.verbosity = verbosity;
        before
    }

    /// Whether everything is written.
    pub fn is_debug(&self) -> (b: bool)
        ensures
            b == (level_of(self.verbosity()) is Trace),
    {
        matches!(LogLevel::from(self.verbosity), LogLevel::Trace)
    }

    /// A logger with the name.
    pub fn get(&self, name: &str) -> (r: Logger)
        ensures
            r.name() == name@,
            r.level() == level_of(self.verbosity()),
    {
        Logger::new(name, self.verbosity)
    }

    /// A report in the given way, and what it starts with.
    pub fn result_logger(strategy: LogStrategy) -> (r: (ResultLogger, String))
        ensures
            r.0.strategy() == strategy,
            r.1@ == report_header(strategy),
    {
        let header = strategy.put_header();
        (ResultLogger::new(strategy), header)
    }

    /// What stands in front of a line of the level.
    pub fn log_level_preamble(lvl: LogLevel) -> (r: &'static str)
        ensures
            r@ == preamble(lvl),
    {
        match lvl {
            LogLevel::Critical => "C |",
            LogLevel::Warn => "W |",
            LogLevel::Info => "I |",
            LogLevel::Trace => "T |",
        }
    }
}

/// Makes log lines under a name.
pub struct Logger {
    name: String,
    level: LogLevel,
}

/// The line of a message.
pub open spec fn log_line(lvl: LogLevel, name: Seq<char>, msg: Seq<char>) -> Seq<char> {
    preamble(lvl) + " "@ + ("["@ + name + "] "@ + msg)
}

impl Logger {
    /// The name.
    pub closed spec fn name(&self) -> Seq<char> {
        self.name@
    }

    /// The last level of which lines are written.
    pub closed spec fn level(&self) -> LogLevel {
        self.level
    }

    /// A logger with the name, at the verbosity.
    pub fn new(name: &str, verbosity: u8) -> (r: Self)
        ensures
            r.name() == name@,
            r.level() == level_of(verbosity),
    {
        Logger { name: name.to_owned(), level: LogLevel::from(verbosity) }
    }

    /// The message under the logger's name.
    pub fn formatted(&self, msg: &str) -> (r: String)
        ensures
            r@ == "["@ + self.name() + "] "@ + msg@,
    {
        "[".to_owned().concat(self.name.as_str()).concat("] ").concat(msg)
    }

    /// The line of a message, if it is written.
    pub fn log(&self, lvl: LogLevel, msg: &str) -> (r: Option<String>)
        ensures
            r is Some <==> level_number(lvl) <= level_number(self.level()),
            r matches Some(line) ==> line@ == log_line(lvl, self.name(), msg@),
    {
        if u8::from(lvl) > u8::from(self.level) {
            return None;
        }
        Some(
            Log::log_level_preamble(lvl).to_owned().concat(" ").concat(
                self.formatted(msg).as_str(),
            ),
        )
    }

    /// The line of a critical message, which is always written.
    pub fn crit(&self, msg: &str) -> (r: Option<String>)
        ensures
            r is Some,
            r->Some_0@ == log_line(LogLevel::Critical, self.name(), msg@),
    {
        self.log(LogLevel::Critical, msg)
    }

    /// The line of a warning, if it is written.
    pub fn warn(&self, msg: &str) -> (r: Option<String>)
        ensures
            r is Some <==> self.level() !is Critical,
            r matches Some(line) ==> line@ == log_line(LogLevel::Warn, self.name(), msg@),
    {
        self.log(LogLevel::Warn, msg)
    }

    /// The line of an information, if it is written.
    pub fn info(&self, msg: &str) -> (r: Option<String>)
        ensures
            r is Some <==> self.level() is Info || self.level() is Trace,
            r matches Some(line) ==> line@ == log_line(LogLevel::Info, self.name(), msg@),
    {
        self.log(LogLevel::Info, msg)
    }

    /// The line of a detail, if it is written.
    pub fn trace(&self, msg: &str) -> (r: Option<String>)
        ensures
            r is Some <==> self.level() is Trace,
            r matches Some(line) ==> line@ == log_line(LogLevel::Trace, self.name(), msg@),
    {
        self.log(LogLevel::Trace, msg)
    }

    /// an unconditional log
    pub fn progress(&self, msg: &str) -> (r: String)
        ensures
            r@ == "P | "@ + ("["@ + self.name() + "] "@ + msg@),
    {
        "P | ".to_owned().concat(self.formatted(msg).as_str())
    }
}

/// A line says how important it is, who says it and what: it starts with the mark of its level, has
/// the name in brackets, and ends with the message. Lines of different levels differ.
pub proof fn law_lines_say_who_says_what(
    lvl: LogLevel,
    other: LogLevel,
    name: Seq<char>,
    msg: Seq<char>,
)
    ensures
        ({
            let line = log_line(lvl, name, msg);
            &&& shows(line, "["@ + name + "]"@)
            &&& line.len() >= msg.len()
            &&& line.subrange(line.len() - msg.len(), line.len() as int) == msg
            &&& log_line(other, name, msg) == line ==> other == lvl
        }),
{
    reveal_strlit("C |");
    reveal_strlit("W |");
    reveal_strlit("I |");
    reveal_strlit("T |");
    reveal_strlit("] ");
    reveal_strlit("]");
    let line = log_line(lvl, name, msg);
    let end = " "@ + msg;
    reveal_strlit(" ");
    assert(line =~= (preamble(lvl) + " "@) + ("["@ + name + "]"@) + end);
    assert(line.subrange(line.len() - msg.len(), line.len() as int) =~= msg);
    assert(line[0] == preamble(lvl)[0]);
    assert(log_line(other, name, msg)[0] == preamble(other)[0]);
}

/// A line that is written at some verbosity is written at every higher one.
pub proof fn law_more_verbose_shows_more(lvl: LogLevel, some: u8, more: u8)
    requires
        some <= more,
        shown(lvl, some),
    ensures
        shown(lvl, more),
{
}

/// How much a report says of each result.
pub enum Detail {
    Normal,
    /// the names of module and function, and the packet
    Detailed(ExtModuleMap),
}

/// How a report is written.
pub enum LogStrategy {
    StdOut,
    PlainText,
    Json {
        /// nothing was reported yet
        first: bool,
        detail: Detail,
    },
}

/// The part of a path's last component behind its last dot.
pub uninterp spec fn path_extension(path: Seq<char>) -> Option<Seq<char>>;

/// `Path::extension`: the result is a function of the path, named [`path_extension`].
#[verifier::external_body]
fn extension_of_path(path: &str) -> (r: Option<String>)
    ensures
        match r {
            Some(extension) => path_extension(path@) == Some(extension@),
            None => path_extension(path@) is None,
        },
{
    std::path::Path::new(path).extension().map(|e| e.to_string_lossy().into_owned())
}

/// A text as it is put out: lines of their own on the standard output.
pub open spec fn put_text(strategy: LogStrategy, s: Seq<char>) -> Seq<char> {
    if strategy is StdOut {
        s + "\n"@
    } else {
        s
    }
}

/// The text for the kind of report, as it is put out. An empty line is not put out.
pub open spec fn format_text(strategy: LogStrategy, json: Seq<char>, plain: Seq<char>) -> Seq<
    char,
> {
    match strategy {
        LogStrategy::StdOut => if plain.len() == 0 {
            plain
        } else {
            put_text(strategy, plain)
        },
        LogStrategy::PlainText => plain,
        LogStrategy::Json { first, detail } => json,
    }
}

/// What a report starts with.
pub open spec fn report_header(strategy: LogStrategy) -> Seq<char> {
    format_text(
        strategy,
        "{ \"results\":\n["@,
        "Module ID | Function ID |  Call  | Packet | Result"@,
    )
}

/// What a report ends with.
pub open spec fn report_footer(strategy: LogStrategy) -> Seq<char> {
    format_text(strategy, "]\n}"@, Seq::empty())
}

impl LogStrategy {
    /// The names of a detailed report are in order.
    pub open spec fn wf(&self) -> bool {
        match *self {
            LogStrategy::Json { first, detail } => match detail {
                Detail::Detailed(modules) => modules.wf(),
                Detail::Normal => true,
            },
            _ => true,
        }
    }

    /// How a report to the file is written, by the file's extension.
    pub fn create(file: &str, detail: Detail) -> (r: Self)
        ensures
            match path_extension(file@) {
                Some(e) => if e == "json"@ {
                    r == (LogStrategy::Json { first: true, detail })
                } else if e == "txt"@ || e == "out"@ || e == "log"@ {
                    r is PlainText
                } else {
                    r is StdOut
                },
                None => r is StdOut,
            },
    {
        match extension_of_path(file) {
            Some(e) => {
                if same_text(e.as_str(), "json") {
                    LogStrategy::Json { first: true, detail }
                } else if same_text(e.as_str(), "txt") || same_text(e.as_str(), "out") || same_text(
                    e.as_str(),
                    "log",
                ) {
                    LogStrategy::PlainText
                } else {
                    LogStrategy::StdOut
                }
            },
            None => LogStrategy::StdOut,
        }
    }

    /// What a report starts with.
    pub fn put_header(&self) -> (r: String)
        ensures
            r@ == report_header(*self),
    {
        self.put_str_format(
            "{ \"results\":\n[",
            "Module ID | Function ID |  Call  | Packet | Result",
        )
    }

    /// What a report ends with.
    pub fn finish(&self) -> (r: String)
        ensures
            r@ == report_footer(*self),
    {
        proof {
            reveal_strlit("");
            assert(""@ =~= Seq::<char>::empty());
        }
        self.put_str_format("]\n}", "")
    }

    fn put_str_format(&self, json_str: &str, stdout_str: &str) -> (r: String)
        ensures
            r@ == format_text(*self, json_str@, stdout_str@),
    {
        match self {
            LogStrategy::StdOut => {
                if stdout_str.unicode_len() > 0 {
                    self.put_str(stdout_str)
                } else {
                    stdout_str.to_owned()
                }
            },
            LogStrategy::PlainText => self.put_str(stdout_str),
            LogStrategy::Json { first: _, detail: _ } => self.put_str(json_str),
        }
    }

    fn put_str(&self, s: &str) -> (r: String)
        ensures
            r@ == put_text(*self, s@),
    {
        match self {
            LogStrategy::StdOut => s.to_owned().concat("\n"),
            _ => s.to_owned(),
        }
    }

    /// A result as it is put out. `packet` is the packet of the result, for a detailed report.
    pub fn put_loggable<T: IntoLogString>(&self, loggable: &T, packet: &[u8]) -> (r: String)
        requires
            self.wf(),
        ensures
            r@ == put_text(*self, loggable.log_text(*self, packet@)),
    {
        let text = loggable.get_log_string(self, packet);
        self.put_str(text.as_str())
    }

    /// Takes note of whether the last result was put out.
    pub fn after_put(&mut self, written: bool)
        ensures
            *final(self) == strategy_after(*old(self), written),
    {
        if written {
            if let LogStrategy::Json { first, detail: _ } = self {
                *first = false;
            }
        }
    }
}

/// The strategy after a result was put out, or not.
pub open spec fn strategy_after(strategy: LogStrategy, written: bool) -> LogStrategy {
    match strategy {
        LogStrategy::Json { first, detail } => LogStrategy::Json {
            first: first && !written,
            detail,
        },
        _ => strategy,
    }
}

/// Something that can be reported.
pub trait IntoLogString {
    /// The text of a report in the given way.
    spec fn log_text(&self, log_strat: LogStrategy, packet: Seq<u8>) -> Seq<char>;

    /// The text of a report in the given way.
    fn get_log_string(&self, log_strat: &LogStrategy, packet: &[u8]) -> (r: String)
        requires
            log_strat.wf(),
        ensures
            r@ == self.log_text(*log_strat, packet@),
    ;
}

/// A result in one line.
pub open spec fn plain_result(result: ResultModel) -> Seq<char> {
    centered(dec(result.thread_lid.0 as nat), 5) + "|"@ + centered(
        hex(result.uid.module_id.0 as nat, 8),
        11,
    ) + "|"@ + centered(hex(result.uid.function_id.0 as nat, 8), 13) + "|"@ + centered(
        dec(result.call.0 as nat),
        8,
    ) + "|"@ + centered(dec(result.pkt.0 as nat), 8) + "|"@ + status_text(result.status)
}

/// How module and function of a result are named: by their names, where these are wanted and
/// known, else by their numbers.
pub open spec fn names_in(detail: Detail, result: ResultModel) -> (Seq<char>, Seq<char>) {
    let by_number = (
        hex(result.uid.module_id.0 as nat, 8),
        hex(result.uid.function_id.0 as nat, 8),
    );
    match detail {
        Detail::Normal => by_number,
        Detail::Detailed(modules) => (
            if modules.knows_module(result.uid.module_id) {
                modules.module_name(result.uid.module_id)
            } else {
                by_number.0
            },
            if modules.knows_function(result.uid) {
                modules.function(result.uid).name
            } else {
                by_number.1
            },
        ),
    }
}

/// A result as a JSON object.
pub open spec fn json_result(detail: Detail, result: ResultModel, packet: Seq<u8>) -> Seq<char> {
    let names = names_in(detail, result);
    "\n\t{\n\t\t\"thread_id\":\""@ + dec(result.thread_lid.0 as nat) + "\",\n\t\t\"module_id\":\""@
        + names.0 + "\",\n\t\t\"function_id\":\""@ + names.1 + "\",\n\t\t\"call_n\":"@ + dec(
        result.call.0 as nat,
    ) + ",\n\t\t\"packet_idx\":"@ + dec(result.pkt.0 as nat) + (if detail is Normal {
        ","@
    } else {
        ",\n\t\t\"packet_hex\":\""@ + hex_bytes(packet) + "\","@
    }) + "\n\t\t\"status\":\""@ + status_text(result.status) + "\"\n\t}"@
}

/// A part of a text that ends in a name, with a value behind it and something that sets the value
/// off.
proof fn lemma_field(
    text: Seq<char>,
    label: Seq<char>,
    value: Seq<char>,
    next: Seq<char>,
    cut: int,
    end: int,
)
    requires
        0 <= cut <= label.len(),
        0 <= end <= next.len(),
    ensures
        shows(
            text + label + value + next,
            label.subrange(cut, label.len() as int) + value + next.subrange(0, end),
        ),
{
    let (x, key) = (label.subrange(0, cut), label.subrange(cut, label.len() as int));
    let (e, y) = (next.subrange(0, end), next.subrange(end, next.len() as int));
    lemma_shows_between(text + x, key, value, e, y);
    assert((text + x) + key =~= text + label);
    assert(e + y =~= next);
}

/// The JSON object of a result says under their names which thread, which call and which packet the
/// result is of, and with which status.
pub proof fn law_json_object_says_what_the_result_is(
    detail: Detail,
    result: ResultModel,
    packet: Seq<u8>,
)
    ensures
        ({
            let object = json_result(detail, result, packet);
            &&& shows(object, "\"thread_id\":\""@ + dec(result.thread_lid.0 as nat) + "\""@)
            &&& shows(object, "\"call_n\":"@ + dec(result.call.0 as nat) + ","@)
            &&& shows(object, "\"packet_idx\":"@ + dec(result.pkt.0 as nat) + ","@)
            &&& shows(object, "\"status\":\""@ + status_text(result.status) + "\""@)
        }),
{
    lemma_json_fields(detail, result, packet);
}

/// The JSON object of a result says under their names which module and function the result is of:
/// by their numbers, or in a detailed report by their names, as far as these are known.
pub proof fn law_json_object_says_of_which_function(
    detail: Detail,
    result: ResultModel,
    packet: Seq<u8>,
)
    ensures
        ({
            let object = json_result(detail, result, packet);
            let module = result.uid.module_id;
            let modules = detail->Detailed_0;
            &&& detail is Normal || !modules.knows_module(module) ==> shows(
                object,
                "\"module_id\":\""@ + hex(module.0 as nat, 8) + "\""@,
            )
            &&& detail is Detailed && modules.knows_module(module) ==> shows(
                object,
                "\"module_id\":\""@ + modules.module_name(module) + "\""@,
            )
            &&& detail is Normal || !modules.knows_function(result.uid) ==> shows(
                object,
                "\"function_id\":\""@ + hex(result.uid.function_id.0 as nat, 8) + "\""@,
            )
            &&& detail is Detailed && modules.knows_function(result.uid) ==> shows(
                object,
                "\"function_id\":\""@ + modules.function(result.uid).name + "\""@,
            )
            &&& detail is Detailed ==> shows(
                object,
                "\"packet_hex\":\""@ + hex_bytes(packet) + "\""@,
            )
        }),
{
    lemma_json_fields(detail, result, packet);
}

proof fn lemma_json_fields(detail: Detail, result: ResultModel, packet: Seq<u8>)
    ensures
        ({
            let object = json_result(detail, result, packet);
            let names = names_in(detail, result);
            &&& shows(object, "\"thread_id\":\""@ + dec(result.thread_lid.0 as nat) + "\""@)
            &&& shows(object, "\"module_id\":\""@ + names.0 + "\""@)
            &&& shows(object, "\"function_id\":\""@ + names.1 + "\""@)
            &&& shows(object, "\"call_n\":"@ + dec(result.call.0 as nat) + ","@)
            &&& shows(object, "\"packet_idx\":"@ + dec(result.pkt.0 as nat) + ","@)
            &&& detail is Detailed ==> shows(
                object,
                "\"packet_hex\":\""@ + hex_bytes(packet) + "\""@,
            )
            &&& shows(object, "\"status\":\""@ + status_text(result.status) + "\""@)
        }),
{
    reveal_strlit("\n\t{\n\t\t\"thread_id\":\"");
    reveal_strlit("\",\n\t\t\"module_id\":\"");
    reveal_strlit("\",\n\t\t\"function_id\":\"");
    reveal_strlit("\",\n\t\t\"call_n\":");
    reveal_strlit(",\n\t\t\"packet_idx\":");
    reveal_strlit(",\n\t\t\"packet_hex\":\"");
    reveal_strlit("\",");
    reveal_strlit("\n\t\t\"status\":\"");
    reveal_strlit("\"\n\t}");
    reveal_strlit("\"thread_id\":\"");
    reveal_strlit("\"module_id\":\"");
    reveal_strlit("\"function_id\":\"");
    reveal_strlit("\"call_n\":");
    reveal_strlit("\"packet_idx\":");
    reveal_strlit("\"packet_hex\":\"");
    reveal_strlit("\"status\":\"");
    reveal_strlit("\"");
    reveal_strlit(",");
    let names = names_in(detail, result);
    let none = Seq::<char>::empty();
    let thread_label = "\n\t{\n\t\t\"thread_id\":\""@;
    let module_label = "\",\n\t\t\"module_id\":\""@;
    let function_label = "\",\n\t\t\"function_id\":\""@;
    let call_label = "\",\n\t\t\"call_n\":"@;
    let packet_label = ",\n\t\t\"packet_idx\":"@;
    let hex_label = ",\n\t\t\"packet_hex\":\""@;
    let packet_part = if detail is Normal {
        ","@
    } else {
        hex_label + hex_bytes(packet) + "\","@
    };
    let status_label = "\n\t\t\"status\":\""@;
    let footer = "\"\n\t}"@;
    let (t, c, p, s) = (
        dec(result.thread_lid.0 as nat),
        dec(result.call.0 as nat),
        dec(result.pkt.0 as nat),
        status_text(result.status),
    );
    let t1 = thread_label + t;
    let t2 = t1 + module_label;
    let t3 = t2 + names.0;
    let t4 = t3 + function_label;
    let t5 = t4 + names.1;
    let t6 = t5 + call_label;
    let t7 = t6 + c;
    let t8 = t7 + packet_label;
    let t9 = t8 + p;
    let t10 = t9 + packet_part;
    let t11 = t10 + status_label;
    let t12 = t11 + s;
    let t13 = t12 + footer;
    assert(t13 == json_result(detail, result, packet));
    let thread_field = "\"thread_id\":\""@ + t + "\""@;
    let module_field = "\"module_id\":\""@ + names.0 + "\""@;
    let function_field = "\"function_id\":\""@ + names.1 + "\""@;
    let call_field = "\"call_n\":"@ + c + ","@;
    let packet_field = "\"packet_idx\":"@ + p + ","@;
    let hex_field = "\"packet_hex\":\""@ + hex_bytes(packet) + "\""@;
    let status_field = "\"status\":\""@ + s + "\""@;
    assert(shows(t2, thread_field)) by {
        lemma_field(none, thread_label, t, module_label, 6, 1);
        assert(none + thread_label =~= thread_label);
        assert(thread_label.subrange(6, thread_label.len() as int) =~= "\"thread_id\":\""@);
        assert(module_label.subrange(0, 1) =~= "\""@);
    }
    assert(shows(t4, module_field)) by {
        lemma_field(t1, module_label, names.0, function_label, 5, 1);
        assert(module_label.subrange(5, module_label.len() as int) =~= "\"module_id\":\""@);
        assert(function_label.subrange(0, 1) =~= "\""@);
    }
    assert(shows(t6, function_field)) by {
        lemma_field(t3, function_label, names.1, call_label, 5, 1);
        assert(function_label.subrange(5, function_label.len() as int) =~= "\"function_id\":\""@);
        assert(call_label.subrange(0, 1) =~= "\""@);
    }
    assert(shows(t8, call_field)) by {
        lemma_field(t5, call_label, c, packet_label, 5, 1);
        assert(call_label.subrange(5, call_label.len() as int) =~= "\"call_n\":"@);
        assert(packet_label.subrange(0, 1) =~= ","@);
    }
    assert(shows(t10, packet_field)) by {
        lemma_field(t7, packet_label, p, packet_part, 4, 1);
        assert(packet_label.subrange(4, packet_label.len() as int) =~= "\"packet_idx\":"@);
        assert(packet_part.subrange(0, 1) =~= ","@);
    }
    if detail is Detailed {
        assert(shows(packet_part, hex_field)) by {
            lemma_field(none, hex_label, hex_bytes(packet), "\","@, 4, 1);
            assert(none + hex_label =~= hex_label);
            assert(hex_label.subrange(4, hex_label.len() as int) =~= "\"packet_hex\":\""@);
            assert("\","@.subrange(0, 1) =~= "\""@);
        }
        lemma_shows_behind(t9, packet_part, hex_field);
        lemma_shows_more(t10, hex_field, status_label);
        lemma_shows_more(t11, hex_field, s);
        lemma_shows_more(t12, hex_field, footer);
    }
    assert(shows(t13, status_field)) by {
        lemma_field(t10, status_label, s, footer, 3, 1);
        assert(status_label.subrange(3, status_label.len() as int) =~= "\"status\":\""@);
        assert(footer.subrange(0, 1) =~= "\""@);
    }
    lemma_shows_more(t2, thread_field, names.0);
    lemma_shows_more(t3, thread_field, function_label);
    lemma_shows_more(t4, thread_field, names.1);
    lemma_shows_more(t4, module_field, names.1);
    lemma_shows_more(t5, thread_field, call_label);
    lemma_shows_more(t5, module_field, call_label);
    lemma_shows_more(t6, thread_field, c);
    lemma_shows_more(t6, module_field, c);
    lemma_shows_more(t6, function_field, c);
    lemma_shows_more(t7, thread_field, packet_label);
    lemma_shows_more(t7, module_field, packet_label);
    lemma_shows_more(t7, function_field, packet_label);
    lemma_shows_more(t8, thread_field, p);
    lemma_shows_more(t8, module_field, p);
    lemma_shows_more(t8, function_field, p);
    lemma_shows_more(t8, call_field, p);
    lemma_shows_more(t9, thread_field, packet_part);
    lemma_shows_more(t9, module_field, packet_part);
    lemma_shows_more(t9, function_field, packet_part);
    lemma_shows_more(t9, call_field, packet_part);
    lemma_shows_to_the_end(t10, thread_field, status_label, s, footer);
    lemma_shows_to_the_end(t10, module_field, status_label, s, footer);
    lemma_shows_to_the_end(t10, function_field, status_label, s, footer);
    lemma_shows_to_the_end(t10, call_field, status_label, s, footer);
    lemma_shows_to_the_end(t10, packet_field, status_label, s, footer);
}

proof fn lemma_shows_to_the_end(
    text: Seq<char>,
    part: Seq<char>,
    one: Seq<char>,
    two: Seq<char>,
    three: Seq<char>,
)
    requires
        shows(text, part),
    ensures
        shows(text + one + two + three, part),
{
    lemma_shows_more(text, part, one);
    lemma_shows_more(text + one, part, two);
    lemma_shows_more(text + one + two, part, three);
}

/// The JSON object of a result, part by part from the front.
proof fn lemma_json_parts(result: ResultModel, packet: Seq<u8>) -> (parts: Seq<Seq<char>>)
    ensures
        parts.len() == 5,
        json_result(Detail::Normal, result, packet) == "\n\t{\n\t\t\"thread_id\":\""@ + (dec(
            result.thread_lid.0 as nat,
        ) + parts[0]),
        parts[0] == "\",\n\t\t\"module_id\":\""@ + (hex(result.uid.module_id.0 as nat, 8) + parts[1]),
        parts[1] == "\",\n\t\t\"function_id\":\""@ + (hex(result.uid.function_id.0 as nat, 8)
            + parts[2]),
        parts[2] == "\",\n\t\t\"call_n\":"@ + (dec(result.call.0 as nat) + parts[3]),
        parts[3] == ",\n\t\t\"packet_idx\":"@ + (dec(result.pkt.0 as nat) + parts[4]),
        parts[4] == ","@ + ("\n\t\t\"status\":\""@ + (status_text(result.status)
            + "\"\n\t}"@)),
{
    let p4 = ","@ + ("\n\t\t\"status\":\""@ + (status_text(result.status) + "\"\n\t}"@));
    let p3 = ",\n\t\t\"packet_idx\":"@ + (dec(result.pkt.0 as nat) + p4);
    let p2 = "\",\n\t\t\"call_n\":"@ + (dec(result.call.0 as nat) + p3);
    let p1 = "\",\n\t\t\"function_id\":\""@ + (hex(result.uid.function_id.0 as nat, 8) + p2);
    let p0 = "\",\n\t\t\"module_id\":\""@ + (hex(result.uid.module_id.0 as nat, 8) + p1);
    assert(json_result(Detail::Normal, result, packet) =~= "\n\t{\n\t\t\"thread_id\":\""@ + (dec(
        result.thread_lid.0 as nat,
    ) + p0));
    seq![p0, p1, p2, p3, p4]
}

/// JSON objects tell results apart: where two of them are the same text, the results are of the
/// same thread, module, function, call and packet, and their statuses read the same.
pub proof fn law_json_objects_tell_results_apart(
    a: ResultModel,
    packet_a: Seq<u8>,
    b: ResultModel,
    packet_b: Seq<u8>,
)
    requires
        json_result(Detail::Normal, a, packet_a) == json_result(Detail::Normal, b, packet_b),
    ensures
        a.thread_lid.0 == b.thread_lid.0,
        a.uid.module_id.0 == b.uid.module_id.0,
        a.uid.function_id.0 == b.uid.function_id.0,
        a.call.0 == b.call.0,
        a.pkt.0 == b.pkt.0,
        status_text(a.status) == status_text(b.status),
{
    reveal_strlit("\",\n\t\t\"module_id\":\"");
    reveal_strlit(",\n\t\t\"packet_idx\":");
    reveal_strlit(",");
    lemma_hex_ranges();
    let x = lemma_json_parts(a, packet_a);
    let y = lemma_json_parts(b, packet_b);
    let thread_label = "\n\t{\n\t\t\"thread_id\":\""@;
    let module_label = "\",\n\t\t\"module_id\":\""@;
    let function_label = "\",\n\t\t\"function_id\":\""@;
    let call_label = "\",\n\t\t\"call_n\":"@;
    let packet_label = ",\n\t\t\"packet_idx\":"@;
    let status_label = "\n\t\t\"status\":\""@;
    let (m, n) = (a.uid.module_id.0 as nat, b.uid.module_id.0 as nat);
    let (f, g) = (a.uid.function_id.0 as nat, b.uid.function_id.0 as nat);
    law_hexadecimal_is_read_back(m, 8);
    law_hexadecimal_is_read_back(n, 8);
    law_hexadecimal_is_read_back(f, 8);
    law_hexadecimal_is_read_back(g, 8);
    lemma_same_parts(
        thread_label,
        dec(a.thread_lid.0 as nat) + x[0],
        thread_label,
        dec(b.thread_lid.0 as nat) + y[0],
    );
    law_decimal_is_unambiguous(a.thread_lid.0 as nat, x[0], b.thread_lid.0 as nat, y[0]);
    lemma_same_parts(module_label, hex(m, 8) + x[1], module_label, hex(n, 8) + y[1]);
    lemma_same_parts(hex(m, 8), x[1], hex(n, 8), y[1]);
    lemma_same_parts(function_label, hex(f, 8) + x[2], function_label, hex(g, 8) + y[2]);
    lemma_same_parts(hex(f, 8), x[2], hex(g, 8), y[2]);
    lemma_same_parts(
        call_label,
        dec(a.call.0 as nat) + x[3],
        call_label,
        dec(b.call.0 as nat) + y[3],
    );
    law_decimal_is_unambiguous(a.call.0 as nat, x[3], b.call.0 as nat, y[3]);
    lemma_same_parts(
        packet_label,
        dec(a.pkt.0 as nat) + x[4],
        packet_label,
        dec(b.pkt.0 as nat) + y[4],
    );
    law_decimal_is_unambiguous(a.pkt.0 as nat, x[4], b.pkt.0 as nat, y[4]);
    let footer = "\"\n\t}"@;
    let (s, t) = (status_text(a.status), status_text(b.status));
    lemma_same_parts(","@, status_label + (s + footer), ","@, status_label + (t + footer));
    lemma_same_parts(status_label, s + footer, status_label, t + footer);
    assert(s.len() == t.len());
    lemma_same_parts(s, footer, t, footer);
}

/// The text has no bar in it.
pub open spec fn no_bar(text: Seq<char>) -> bool {
    forall|i: int| 0 <= i < text.len() ==> #[trigger] text[i] != '|'
}

proof fn lemma_column(text: Seq<char>, width: nat)
    requires
        forall|i: int| 0 <= i < text.len() ==> #[trigger] text[i] != ' ' && text[i] != '|',
    ensures
        no_bar(centered(text, width)),
        without_blanks(centered(text, width)) == text,
{
    law_centered_text_is_kept(text, width);
    assert forall|i: int| 0 <= i < centered(text, width).len() implies #[trigger] centered(
        text,
        width,
    )[i] != '|' by {
        let c = centered(text, width)[i];
        if c != ' ' {
            assert(text.contains(c));
            let k = text.index_of(c);
            assert(text[k] == c);
        }
    }
}

/// Columns with a bar behind each.
pub open spec fn line_of(columns: Seq<Seq<char>>) -> Seq<char>
    decreases columns.len(),
{
    if columns.len() == 0 {
        Seq::empty()
    } else {
        line_of(columns.drop_last()) + columns.last() + "|"@
    }
}

proof fn lemma_five_columns(columns: Seq<Seq<char>>)
    requires
        columns.len() == 5,
    ensures
        line_of(columns) == columns[0] + "|"@ + columns[1] + "|"@ + columns[2] + "|"@ + columns[3]
            + "|"@ + columns[4] + "|"@,
{
    let four = columns.drop_last();
    let three = four.drop_last();
    let two = three.drop_last();
    let one = two.drop_last();
    assert(line_of(one.drop_last()) == Seq::<char>::empty());
    assert(Seq::<char>::empty() + columns[0] =~= columns[0]);
    assert(line_of(one) == columns[0] + "|"@);
    assert(line_of(two) == line_of(one) + columns[1] + "|"@);
    assert(line_of(three) == line_of(two) + columns[2] + "|"@);
    assert(line_of(four) == line_of(three) + columns[3] + "|"@);
}

proof fn lemma_decimal_column(n: nat, width: nat)
    ensures
        no_bar(centered(dec(n), width)),
        without_blanks(centered(dec(n), width)) == dec(n),
{
    lemma_dec_is_digits(n);
    lemma_column(dec(n), width);
}

proof fn lemma_hexadecimal_column(n: nat, width: nat)
    ensures
        no_bar(centered(hex(n, 8), width)),
        without_blanks(centered(hex(n, 8), width)) == hex(n, 8),
{
    lemma_hex_is_digits(n, 8);
    lemma_column(hex(n, 8), width);
}

/// The columns are those of a result.
pub open spec fn columns_of(columns: Seq<Seq<char>>, result: ResultModel) -> bool {
    &&& columns.len() == 5
    &&& no_bar(columns[0]) && without_blanks(columns[0]) == dec(result.thread_lid.0 as nat)
    &&& no_bar(columns[1]) && without_blanks(columns[1]) == hex(result.uid.module_id.0 as nat, 8)
    &&& no_bar(columns[2]) && without_blanks(columns[2]) == hex(result.uid.function_id.0 as nat, 8)
    &&& no_bar(columns[3]) && without_blanks(columns[3]) == dec(result.call.0 as nat)
    &&& no_bar(columns[4]) && without_blanks(columns[4]) == dec(result.pkt.0 as nat)
}

/// The line of a result has five columns with a bar behind each, and then the status. They say, in
/// this order, of which thread, module, function, call and packet the result is.
pub proof fn law_line_has_the_columns_of_the_result(result: ResultModel)
    ensures
        exists|columns: Seq<Seq<char>>|
            #[trigger] columns_of(columns, result) && plain_result(result) == line_of(columns)
                + status_text(result.status),
{
    let c0 = centered(dec(result.thread_lid.0 as nat), 5);
    let c1 = centered(hex(result.uid.module_id.0 as nat, 8), 11);
    let c2 = centered(hex(result.uid.function_id.0 as nat, 8), 13);
    let c3 = centered(dec(result.call.0 as nat), 8);
    let c4 = centered(dec(result.pkt.0 as nat), 8);
    let columns = seq![c0, c1, c2, c3, c4];
    assert(columns_of(columns, result)) by {
        lemma_decimal_column(result.thread_lid.0 as nat, 5);
        lemma_hexadecimal_column(result.uid.module_id.0 as nat, 11);
        lemma_hexadecimal_column(result.uid.function_id.0 as nat, 13);
        lemma_decimal_column(result.call.0 as nat, 8);
        lemma_decimal_column(result.pkt.0 as nat, 8);
    }
    assert(plain_result(result) == line_of(columns) + status_text(result.status)) by {
        lemma_five_columns(columns);
    }
}

/// The text of a result: in JSON, all but the first one are set off by a comma.
pub open spec fn result_text(strategy: LogStrategy, result: ResultModel, packet: Seq<u8>) -> Seq<
    char,
> {
    match strategy {
        LogStrategy::Json { first, detail } => if first {
            json_result(detail, result, packet)
        } else {
            ","@ + json_result(detail, result, packet)
        },
        _ => plain_result(result),
    }
}

impl IntoLogString for LogResult {
    open spec fn log_text(&self, log_strat: LogStrategy, packet: Seq<u8>) -> Seq<char> {
        result_text(log_strat, self@, packet)
    }

    fn get_log_string(&self, log_strat: &LogStrategy, packet: &[u8]) -> (r: String) {
        match log_strat {
            LogStrategy::StdOut | LogStrategy::PlainText => {
                center(decimal(self.thread_lid.0).as_str(), 5).concat("|").concat(
                    center(self.uid.module_id.hex_string().as_str(), 11).as_str(),
                ).concat("|").concat(
                    center(self.uid.function_id.hex_string().as_str(), 13).as_str(),
                ).concat("|").concat(
                    center(decimal(self.call.0 as u64).as_str(), 8).as_str(),
                ).concat("|").concat(
                    center(decimal(self.pkt.0).as_str(), 8).as_str(),
                ).concat("|").concat(self.status.text().as_str())
            },
            LogStrategy::Json { first, detail } => {
                let mut module_id = self.uid.module_id.hex_string();
                let mut fn_id = self.uid.function_id.hex_string();
                let packet_part = match detail {
                    Detail::Normal => ",".to_owned(),
                    Detail::Detailed(modules) => {
                        if let Some(name) = modules.get_module_string_id(self.uid.module_id) {
                            module_id = name.clone();
                        }
                        if let Some(name) = modules.get_function_name(self.uid) {
                            fn_id = name.clone();
                        }
                        ",\n\t\t\"packet_hex\":\"".to_owned().concat(
                            hex_of_bytes(packet).as_str(),
                        ).concat("\",")
                    },
                };
                let object = "\n\t{\n\t\t\"thread_id\":\"".to_owned().concat(
                    decimal(self.thread_lid.0).as_str(),
                ).concat("\",\n\t\t\"module_id\":\"").concat(module_id.as_str()).concat(
                    "\",\n\t\t\"function_id\":\"",
                ).concat(fn_id.as_str()).concat("\",\n\t\t\"call_n\":").concat(
                    decimal(self.call.0 as u64).as_str(),
                ).concat(",\n\t\t\"packet_idx\":").concat(
                    decimal(self.pkt.0).as_str(),
                ).concat(packet_part.as_str()).concat("\n\t\t\"status\":\"").concat(
                    self.status.text().as_str(),
                ).concat("\"\n\t}");
                if *first {
                    object
                } else {
                    ",".to_owned().concat(object.as_str())
                }
            },
        }
    }
}

/// Writes a report.
pub struct ResultLogger {
    result_log: LogStrategy,
}

impl ResultLogger {
    /// How the report is written.
    pub closed spec fn strategy(&self) -> LogStrategy {
        self.result_log
    }

    /// A report in the given way, whose header was written.
    pub fn new(result_log: LogStrategy) -> (r: Self)
        ensures
            r.strategy() == result_log,
    {
        ResultLogger { result_log }
    }

    /// A result as it is put out.
    pub fn result<T: IntoLogString>(&self, msg: &T, packet: &[u8]) -> (r: String)
        requires
            self.strategy().wf(),
        ensures
            r@ == put_text(self.strategy(), msg.log_text(self.strategy(), packet@)),
    {
        self.result_log.put_loggable(msg, packet)
    }

    /// Takes note of whether the last result was put out.
    pub fn after_result(&mut self, written: bool)
        ensures
            final(self).strategy() == strategy_after(old(self).strategy(), written),
    {
        self.result_log.after_put(written);
    }

    /// What the report ends with.
    pub fn finish(self) -> (r: String)
        ensures
            r@ == report_footer(self.strategy()),
    {
        self.result_log.finish()
    }
}

/// The strategy with which a report's n-th result is written, if all before it were.
pub open spec fn strategy_at(strategy: LogStrategy, n: nat) -> LogStrategy
    decreases n,
{
    if n == 0 {
        strategy
    } else {
        strategy_after(strategy_at(strategy, (n - 1) as nat), true)
    }
}

/// The objects, with a comma between neighbours.
pub open spec fn json_list(detail: Detail, results: Seq<(ResultModel, Seq<u8>)>) -> Seq<char>
    decreases results.len(),
{
    if results.len() == 0 {
        Seq::empty()
    } else {
        let last = json_result(detail, results.last().0, results.last().1);
        if results.len() == 1 {
            last
        } else {
            json_list(detail, results.drop_last()) + ","@ + last
        }
    }
}

/// What is put out for the results of a report, one after the other.
pub open spec fn report_body(strategy: LogStrategy, results: Seq<(ResultModel, Seq<u8>)>) -> Seq<
    char,
>
    decreases results.len(),
{
    if results.len() == 0 {
        Seq::empty()
    } else {
        let now = strategy_at(strategy, (results.len() - 1) as nat);
        report_body(strategy, results.drop_last()) + put_text(
            now,
            result_text(now, results.last().0, results.last().1),
        )
    }
}

/// The body of a JSON report is the list of its results: one object each, in order, with a
/// comma between neighbours and none in front or behind.
pub proof fn law_json_report_is_a_list(detail: Detail, results: Seq<(ResultModel, Seq<u8>)>)
    ensures
        report_body(LogStrategy::Json { first: true, detail }, results) == json_list(
            detail,
            results,
        ),
    decreases results.len(),
{
    let strategy = LogStrategy::Json { first: true, detail };
    if results.len() > 0 {
        law_json_report_is_a_list(detail, results.drop_last());
        lemma_strategy_at(detail, (results.len() - 1) as nat);
        let last = json_result(detail, results.last().0, results.last().1);
        if results.len() == 1 {
            assert(Seq::<char>::empty() + last =~= last);
        } else {
            assert(json_list(detail, results.drop_last()) + (","@ + last) =~= json_list(
                detail,
                results.drop_last(),
            ) + ","@ + last);
        }
    }
}

proof fn lemma_strategy_at(detail: Detail, n: nat)
    ensures
        strategy_at(LogStrategy::Json { first: true, detail }, n) == (LogStrategy::Json {
            first: n == 0,
            detail,
        }),
    decreases n,
{
    if n > 0 {
        lemma_strategy_at(detail, (n - 1) as nat);
    }
}

} // verus!
