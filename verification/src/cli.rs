//! Command lines of the pipeline and of its monitor.

use crate::pipeline::SchedulerKind;
use vstd::prelude::*;
use vstd::string::{StrSliceExecFns, StringExecFns};

verus! {

/// Code of a character, that of the small letter for an ASCII capital.
pub open spec fn spec_lower(c: char) -> int {
    if 'A' <= c <= 'Z' {
        c as int + 32
    } else {
        c as int
    }
}

fn lower(c: char) -> (code: u32)
    ensures
        code == spec_lower(c),
{
    let code: u32 = c as u32;
    if 65 <= code && code <= 90 {
        code + 32
    } else {
        code
    }
}

/// Whether two texts are the same, ASCII capitals of the first counting as small letters.
pub open spec fn is_name(value: Seq<char>, name: Seq<char>) -> bool {
    &&& value.len() == name.len()
    &&& forall|i: int| 0 <= i < name.len() ==> spec_lower(#[trigger] value[i]) == name[i] as int
}

fn names(value: &str, name: &str) -> (yes: bool)
    ensures
        yes == is_name(value@, name@),
{
    let n: usize = name.unicode_len();
    if value.unicode_len() != n {
        return false;
    }
    let mut i: usize = 0;
    while i < n
        invariant
            i <= n,
            n == name@.len(),
            n == value@.len(),
            forall|j: int| 0 <= j < i ==> spec_lower(#[trigger] value@[j]) == name@[j] as int,
        decreases n - i,
    {
        if lower(value.get_char(i)) != name.get_char(i) as u32 {
            assert(spec_lower(value@[i as int]) != name@[i as int] as int);
            return false;
        }
        i = i + 1;
    }
    true
}

/// Whether two texts are the same.
fn same(a: &str, b: &str) -> (yes: bool)
    ensures
        yes == (a@ == b@),
{
    let n: usize = a.unicode_len();
    if b.unicode_len() != n {
        return false;
    }
    let mut i: usize = 0;
    while i < n
        invariant
            i <= n,
            n == a@.len(),
            n == b@.len(),
            forall|j: int| 0 <= j < i ==> a@[j] == b@[j],
        decreases n - i,
    {
        if a.get_char(i) != b.get_char(i) {
            return false;
        }
        i = i + 1;
    }
    assert(a@ =~= b@);
    true
}

/// The place of the first `c` in a text, or its length.
pub open spec fn first_of(text: Seq<char>, c: char) -> int
    decreases text.len(),
{
    if text.len() == 0 || text[0] == c {
        0
    } else {
        1 + first_of(text.drop_first(), c)
    }
}

proof fn lemma_first_of(text: Seq<char>, c: char, at: int)
    requires
        0 <= at <= text.len(),
        forall|j: int| 0 <= j < at ==> text[j] != c,
        at < text.len() ==> text[at] == c,
    ensures
        first_of(text, c) == at,
    decreases text.len(),
{
    if at > 0 {
        let rest = text.drop_first();
        assert forall|j: int| 0 <= j < at - 1 implies rest[j] != c by {
            assert(rest[j] == text[j + 1]);
        }
        lemma_first_of(rest, c, at - 1);
    }
}

fn find(text: &str, c: char) -> (at: usize)
    ensures
        at == first_of(text@, c),
        at <= text@.len(),
{
    let n: usize = text.unicode_len();
    let mut at: usize = 0;
    while at < n && text.get_char(at) != c
        invariant
            at <= n,
            n == text@.len(),
            forall|j: int| 0 <= j < at ==> text@[j] != c,
        decreases n - at,
    {
        at = at + 1;
    }
    proof {
        lemma_first_of(text@, c, at as int);
    }
    at
}

/// The scheduler that a name stands for.
pub open spec fn scheduler_named(value: Seq<char>) -> Option<SchedulerKind> {
    if is_name(value, "multi"@) || is_name(value, "multi-worker"@) || is_name(
        value,
        "multi_worker"@,
    ) {
        Some(SchedulerKind::MultiWorker)
    } else if is_name(value, "gedf"@) || is_name(value, "g-edf"@) || is_name(value, "global"@) {
        Some(SchedulerKind::Global)
    } else if is_name(value, "gedf-vd"@) || is_name(value, "g-edf-vd"@) || is_name(
        value,
        "global-vd"@,
    ) {
        Some(SchedulerKind::GlobalVD)
    } else if is_name(value, "single"@) || is_name(value, "legacy"@) {
        Some(SchedulerKind::Single)
    } else {
        None
    }
}

/// Computes [`scheduler_named`].
pub fn parse_scheduler(value: &str) -> (kind: Option<SchedulerKind>)
    ensures
        kind == scheduler_named(value@),
{
    if names(value, "multi") || names(value, "multi-worker") || names(value, "multi_worker") {
        Some(SchedulerKind::MultiWorker)
    } else if names(value, "gedf") || names(value, "g-edf") || names(value, "global") {
        Some(SchedulerKind::Global)
    } else if names(value, "gedf-vd") || names(value, "g-edf-vd") || names(value, "global-vd") {
        Some(SchedulerKind::GlobalVD)
    } else if names(value, "single") || names(value, "legacy") {
        Some(SchedulerKind::Single)
    } else {
        None
    }
}

/// An address with a port: as given where it holds a colon, with port 9999 otherwise.
pub open spec fn with_port(value: Seq<char>) -> Seq<char> {
    if value.contains(':') {
        value
    } else {
        value + ":9999"@
    }
}

/// Computes [`with_port`].
pub fn normalize_metrics_bind(value: &str) -> (address: String)
    ensures
        address@ == with_port(value@),
{
    let n: usize = value.unicode_len();
    let mut i: usize = 0;
    while i < n
        invariant
            i <= n,
            n == value@.len(),
            forall|j: int| 0 <= j < i ==> value@[j] != ':',
        decreases n - i,
    {
        if value.get_char(i) == ':' {
            return value.to_string();
        }
        i = i + 1;
    }
    value.to_string().concat(":9999")
}

/// What the command line of the pipeline sets.
#[derive(Debug, Clone)]
pub struct CliOptions {
    pub scheduler: SchedulerKind,
    /// Address of the metrics server.
    pub metrics_bind: String,
}

/// What a command line sets.
pub struct CliOptionsView {
    pub scheduler: SchedulerKind,
    pub metrics_bind: Seq<char>,
}

impl View for CliOptions {
    type V = CliOptionsView;

    open spec fn view(&self) -> CliOptionsView {
        CliOptionsView { scheduler: self.scheduler, metrics_bind: self.metrics_bind@ }
    }
}

/// Whether an argument sets the scheduler.
pub open spec fn is_scheduler_key(key: Seq<char>) -> bool {
    key == "--scheduler"@
}

/// Whether an argument sets the address of the metrics server.
pub open spec fn is_bind_key(key: Seq<char>) -> bool {
    key == "--metrics-bind"@ || key == "--metrics-host"@
}

impl CliOptionsView {
    /// The options once `key` is set to `value`. An unknown key or scheduler changes nothing.
    pub open spec fn set(self, key: Seq<char>, value: Seq<char>) -> CliOptionsView {
        if is_scheduler_key(key) {
            CliOptionsView {
                scheduler: match scheduler_named(value) {
                    Some(kind) => kind,
                    None => self.scheduler,
                },
                ..self
            }
        } else if is_bind_key(key) {
            CliOptionsView { metrics_bind: with_port(value), ..self }
        } else {
            self
        }
    }
}

/// The texts of a list of arguments.
pub open spec fn texts(args: Seq<String>) -> Seq<Seq<char>> {
    args.map_values(|arg: String| arg@)
}

/// The options that arguments set, from the first to the last: `key=value` in one argument, or a
/// known key and a value in two. A known key at the end, and all else, is passed over.
pub open spec fn options_of(args: Seq<Seq<char>>, options: CliOptionsView) -> CliOptionsView
    decreases args.len(),
{
    if args.len() == 0 {
        options
    } else {
        let arg = args[0];
        let at = first_of(arg, '=');
        if at < arg.len() {
            options_of(args.skip(1), options.set(arg.take(at), arg.skip(at + 1)))
        } else if is_scheduler_key(arg) || is_bind_key(arg) {
            if args.len() == 1 {
                options
            } else {
                options_of(args.skip(2), options.set(arg, args[1]))
            }
        } else {
            options_of(args.skip(1), options)
        }
    }
}

/// The options where no argument is given.
pub open spec fn default_options() -> CliOptionsView {
    CliOptionsView { scheduler: SchedulerKind::Single, metrics_bind: "127.0.0.1:9999"@ }
}

impl CliOptions {
    fn set(&mut self, key: &str, value: &str)
        ensures
            final(self)@ == old(self)@.set(key@, value@),
    {
        if same(key, "--scheduler") {
            match parse_scheduler(value) {
                Some(kind) => {
                    self.scheduler = kind;
                },
                None => {},
            }
        } else if same(key, "--metrics-bind") || same(key, "--metrics-host") {
            self.metrics_bind = normalize_metrics_bind(value);
        }
    }
}

/// Reads the command line of the pipeline, without the program's name.
pub fn parse_cli_options(args: &Vec<String>) -> (options: CliOptions)
    ensures
        options@ == options_of(texts(args@), default_options()),
{
    let mut options = CliOptions {
        scheduler: SchedulerKind::default(),
        metrics_bind: "127.0.0.1:9999".to_string(),
    };
    let ghost all = texts(args@);
    let mut i: usize = 0;
    assert(all.skip(0) =~= all);
    while i < args.len()
        invariant
            i <= args@.len(),
            all == texts(args@),
            options_of(all.skip(i as int), options@) == options_of(all, default_options()),
        decreases args@.len() - i,
    {
        let arg: &str = args[i].as_str();
        let ghost rest = all.skip(i as int);
        assert(rest[0] == arg@);
        assert(rest.skip(1) =~= all.skip(i + 1));
        let at: usize = find(arg, '=');
        let n: usize = arg.unicode_len();
        if at < n {
            let key = arg.substring_char(0, at);
            let value = arg.substring_char(at + 1, n);
            assert(key@ =~= arg@.take(at as int));
            assert(value@ =~= arg@.skip(at + 1));
            options.set(key, value);
            i = i + 1;
        } else if same(arg, "--scheduler") || same(arg, "--metrics-bind") || same(
            arg,
            "--metrics-host",
        ) {
            if args.len() - i == 1 {
                return options;
            }
            assert(rest[1] == args@[i + 1]@);
            assert(rest.skip(2) =~= all.skip(i + 2));
            options.set(arg, args[i + 1].as_str());
            i = i + 2;
        } else {
            i = i + 1;
        }
    }
    options
}

/// What the command line of the monitor asks for.
#[derive(Debug, Clone)]
pub enum GuiCommand {
    /// Show the reports of the server at this address.
    Connect(String),
    /// Tell the usage, with this address as the default.
    Help(String),
}

/// What a command line asks for.
pub enum GuiCommandView {
    Connect(Seq<char>),
    Help(Seq<char>),
}

impl View for GuiCommand {
    type V = GuiCommandView;

    open spec fn view(&self) -> GuiCommandView {
        match self {
            GuiCommand::Connect(address) => GuiCommandView::Connect(address@),
            GuiCommand::Help(address) => GuiCommandView::Help(address@),
        }
    }
}

/// Whether an argument of the monitor names the server.
pub open spec fn is_server_key(key: Seq<char>) -> bool {
    key == "--server"@ || key == "--host"@ || key == "--metrics"@
}

/// What the arguments of the monitor ask for, from the first to the last: `key=address` in one
/// argument, a key and an address in two, or an address alone.
pub open spec fn command_of(args: Seq<Seq<char>>, address: Seq<char>) -> GuiCommandView
    decreases args.len(),
{
    if args.len() == 0 {
        GuiCommandView::Connect(address)
    } else {
        let arg = args[0];
        let at = first_of(arg, '=');
        if at < arg.len() {
            command_of(
                args.skip(1),
                if is_server_key(arg.take(at)) {
                    arg.skip(at + 1)
                } else {
                    address
                },
            )
        } else if is_server_key(arg) {
            if args.len() == 1 {
                GuiCommandView::Connect(address)
            } else {
                command_of(args.skip(2), args[1])
            }
        } else if arg == "--help"@ || arg == "-h"@ {
            GuiCommandView::Help(address)
        } else {
            command_of(args.skip(1), arg)
        }
    }
}

fn is_server(key: &str) -> (yes: bool)
    ensures
        yes == is_server_key(key@),
{
    same(key, "--server") || same(key, "--host") || same(key, "--metrics")
}

/// Reads the command line of the monitor, without the program's name.
pub fn parse_gui_command(args: &Vec<String>) -> (command: GuiCommand)
    ensures
        command@ == command_of(texts(args@), "127.0.0.1:9999"@),
{
    let mut address: String = "127.0.0.1:9999".to_string();
    let ghost all = texts(args@);
    let mut i: usize = 0;
    assert(all.skip(0) =~= all);
    while i < args.len()
        invariant
            i <= args@.len(),
            all == texts(args@),
            command_of(all.skip(i as int), address@) == command_of(all, "127.0.0.1:9999"@),
        decreases args@.len() - i,
    {
        let arg: &str = args[i].as_str();
        let ghost rest = all.skip(i as int);
        assert(rest[0] == arg@);
        assert(rest.skip(1) =~= all.skip(i + 1));
        let at: usize = find(arg, '=');
        let n: usize = arg.unicode_len();
        if at < n {
            let key = arg.substring_char(0, at);
            let value = arg.substring_char(at + 1, n);
            assert(key@ =~= arg@.take(at as int));
            assert(value@ =~= arg@.skip(at + 1));
            if is_server(key) {
                address = value.to_string();
            }
            i = i + 1;
        } else if is_server(arg) {
            if args.len() - i == 1 {
                return GuiCommand::Connect(address);
            }
            assert(rest[1] == args@[i + 1]@);
            assert(rest.skip(2) =~= all.skip(i + 2));
            address = args[i + 1].clone();
            i = i + 2;
        } else if same(arg, "--help") || same(arg, "-h") {
            return GuiCommand::Help(address);
        } else {
            address = arg.to_string();
            i = i + 1;
        }
    }
    GuiCommand::Connect(address)
}

/// Law: the first of a character in a text is where the text holds it and nowhere before; a text that
/// does not hold it is read to its end.
pub proof fn law_first_is_the_first(text: Seq<char>, c: char)
    ensures
        0 <= first_of(text, c) <= text.len(),
        first_of(text, c) < text.len() ==> text[first_of(text, c)] == c,
        forall|i: int| 0 <= i < first_of(text, c) ==> #[trigger] text[i] != c,
        first_of(text, c) == text.len() <==> !text.contains(c),
    decreases text.len(),
{
    if text.len() > 0 && text[0] != c {
        let rest = text.drop_first();
        law_first_is_the_first(rest, c);
        assert forall|i: int| 0 <= i < first_of(text, c) implies #[trigger] text[i] != c by {
            if i > 0 {
                assert(rest[i - 1] == text[i]);
            }
        }
        if rest.contains(c) {
            let i = choose|i: int| 0 <= i < rest.len() && rest[i] == c;
            assert(text[i + 1] == c);
        }
        if text.contains(c) {
            let i = choose|i: int| 0 <= i < text.len() && text[i] == c;
            assert(rest[i - 1] == c);
        }
    } else if text.len() > 0 {
        assert(text.contains(text[0]));
    }
}

/// Law: capitals count as small letters, 32 places on, and every other character as itself; so texts that
/// differ in that alone name the same scheduler.
pub proof fn law_capitals_do_not_matter(value: Seq<char>, other: Seq<char>, c: char)
    requires
        value.len() == other.len(),
        forall|i: int|
            0 <= i < value.len() ==> spec_lower(#[trigger] value[i]) == spec_lower(
                #[trigger] other[i],
            ),
    ensures
        scheduler_named(value) == scheduler_named(other),
        65 <= c as int <= 90 ==> spec_lower(c) == c as int + 32,
        c as int <= 64 || c as int >= 91 ==> spec_lower(c) == c as int,
{
    assert forall|name: Seq<char>| #[trigger] is_name(value, name) == is_name(other, name) by {
        if is_name(value, name) {
            assert forall|i: int| 0 <= i < name.len() implies spec_lower(#[trigger] other[i])
                == name[i] as int by {
                assert(spec_lower(value[i]) == name[i] as int);
            }
        }
        if is_name(other, name) {
            assert forall|i: int| 0 <= i < name.len() implies spec_lower(#[trigger] value[i])
                == name[i] as int by {
                assert(spec_lower(other[i]) == name[i] as int);
            }
        }
    }
}

/// Law: each name of a scheduler names that scheduler and no other, and any other text names none.
pub proof fn law_names_name_one_scheduler(value: Seq<char>)
    ensures
        is_name(value, "multi"@) ==> scheduler_named(value) == Some(SchedulerKind::MultiWorker),
        is_name(value, "multi-worker"@) ==> scheduler_named(value) == Some(
            SchedulerKind::MultiWorker,
        ),
        is_name(value, "multi_worker"@) ==> scheduler_named(value) == Some(
            SchedulerKind::MultiWorker,
        ),
        is_name(value, "gedf"@) ==> scheduler_named(value) == Some(SchedulerKind::Global),
        is_name(value, "g-edf"@) ==> scheduler_named(value) == Some(SchedulerKind::Global),
        is_name(value, "global"@) ==> scheduler_named(value) == Some(SchedulerKind::Global),
        is_name(value, "gedf-vd"@) ==> scheduler_named(value) == Some(SchedulerKind::GlobalVD),
        is_name(value, "g-edf-vd"@) ==> scheduler_named(value) == Some(SchedulerKind::GlobalVD),
        is_name(value, "global-vd"@) ==> scheduler_named(value) == Some(SchedulerKind::GlobalVD),
        is_name(value, "single"@) ==> scheduler_named(value) == Some(SchedulerKind::Single),
        is_name(value, "legacy"@) ==> scheduler_named(value) == Some(SchedulerKind::Single),
        scheduler_named(value) is Some ==> {
            ||| is_name(value, "multi"@)
            ||| is_name(value, "multi-worker"@)
            ||| is_name(value, "multi_worker"@)
            ||| is_name(value, "gedf"@)
            ||| is_name(value, "g-edf"@)
            ||| is_name(value, "global"@)
            ||| is_name(value, "gedf-vd"@)
            ||| is_name(value, "g-edf-vd"@)
            ||| is_name(value, "global-vd"@)
            ||| is_name(value, "single"@)
            ||| is_name(value, "legacy"@)
        },
{
    reveal_strlit("multi");
    reveal_strlit("multi-worker");
    reveal_strlit("multi_worker");
    reveal_strlit("gedf");
    reveal_strlit("g-edf");
    reveal_strlit("global");
    reveal_strlit("gedf-vd");
    reveal_strlit("g-edf-vd");
    reveal_strlit("global-vd");
    reveal_strlit("single");
    reveal_strlit("legacy");
    assert(is_name(value, "global"@) ==> spec_lower(value[0]) == 'g' as int);
    assert(is_name(value, "g-edf"@) ==> spec_lower(value[0]) == 'g' as int);
}

/// Law: an address with a colon stays as it is; one without gets port 9999 behind it.
pub proof fn law_addresses_get_a_port(value: Seq<char>)
    ensures
        with_port(value).contains(':'),
        value.contains(':') ==> with_port(value) == value,
        !value.contains(':') ==> with_port(value) == value + seq![':', '9', '9', '9', '9'],
{
    reveal_strlit(":9999");
    assert(":9999"@ =~= seq![':', '9', '9', '9', '9']);
    if !value.contains(':') {
        assert(with_port(value)[value.len() as int] == ':');
    }
}

/// Law: each key sets what it is for and nothing else: the scheduler where the name is known, or the
/// address of the metrics server; an unknown name or key sets nothing.
pub proof fn law_keys_set_their_own_option(
    options: CliOptionsView,
    key: Seq<char>,
    value: Seq<char>,
)
    ensures
        key == "--scheduler"@ ==> {
            &&& options.set(key, value).metrics_bind == options.metrics_bind
            &&& scheduler_named(value) matches Some(kind) ==> options.set(key, value).scheduler
                == kind
            &&& scheduler_named(value) is None ==> options.set(key, value) == options
        },
        key == "--metrics-bind"@ || key == "--metrics-host"@ ==> {
            &&& options.set(key, value).scheduler == options.scheduler
            &&& options.set(key, value).metrics_bind == with_port(value)
        },
        key != "--scheduler"@ && key != "--metrics-bind"@ && key != "--metrics-host"@
            ==> options.set(key, value) == options,
{
    reveal_strlit("--scheduler");
    reveal_strlit("--metrics-bind");
    reveal_strlit("--metrics-host");
    assert("--scheduler"@.len() == 11 && "--metrics-bind"@.len() == 14 && "--metrics-host"@.len()
        == 14);
}

/// Law: arguments are read from the first to the last. A key and its value count the same in one
/// argument, with an equals sign between them, and in two; a key at the end and an argument that is
/// neither are passed over.
pub proof fn law_arguments_are_read_in_turn(
    key: Seq<char>,
    value: Seq<char>,
    rest: Seq<Seq<char>>,
    options: CliOptionsView,
)
    requires
        !key.contains('='),
    ensures
        options_of(Seq::empty(), options) == options,
        options_of(seq![key + seq!['='] + value] + rest, options) == options_of(
            rest,
            options.set(key, value),
        ),
        is_scheduler_key(key) || is_bind_key(key) ==> {
            &&& options_of(seq![key, value] + rest, options) == options_of(
                rest,
                options.set(key, value),
            )
            &&& options_of(seq![key], options) == options
        },
        !is_scheduler_key(key) && !is_bind_key(key) ==> options_of(seq![key] + rest, options)
            == options_of(rest, options),
{
    let joined = key + seq!['='] + value;
    lemma_joined(key, value);
    assert((seq![joined] + rest).skip(1) =~= rest);
    assert((seq![joined] + rest)[0] == joined);
    law_first_is_the_first(key, '=');
    assert((seq![key, value] + rest).skip(2) =~= rest);
    assert((seq![key, value] + rest)[0] == key);
    assert((seq![key, value] + rest)[1] == value);
    assert((seq![key] + rest).skip(1) =~= rest);
    assert((seq![key] + rest)[0] == key);
    assert(seq![key][0] == key);
}

proof fn lemma_joined(key: Seq<char>, value: Seq<char>)
    requires
        !key.contains('='),
    ensures
        first_of(key + seq!['='] + value, '=') == key.len(),
        (key + seq!['='] + value).take(key.len() as int) == key,
        (key + seq!['='] + value).skip(key.len() as int + 1) == value,
{
    let joined = key + seq!['='] + value;
    assert forall|j: int| 0 <= j < key.len() implies joined[j] != '=' by {
        assert(key.contains(key[j]));
    }
    lemma_first_of(joined, '=', key.len() as int);
    assert(joined.take(key.len() as int) =~= key);
    assert(joined.skip(key.len() as int + 1) =~= value);
}

/// Law: the monitor connects to the address that its arguments name last: behind a key and an equals
/// sign, behind a key, or alone. A key at the end and one that is unknown, with an equals sign, are
/// passed over. A request for help ends the reading, with the address named so far.
pub proof fn law_the_last_address_counts(
    key: Seq<char>,
    value: Seq<char>,
    rest: Seq<Seq<char>>,
    address: Seq<char>,
)
    requires
        !key.contains('='),
    ensures
        command_of(Seq::empty(), address) == GuiCommandView::Connect(address),
        key == "--server"@ || key == "--host"@ || key == "--metrics"@ ==> {
            &&& command_of(seq![key + seq!['='] + value] + rest, address) == command_of(rest, value)
            &&& command_of(seq![key, value] + rest, address) == command_of(rest, value)
            &&& command_of(seq![key], address) == GuiCommandView::Connect(address)
        },
        key != "--server"@ && key != "--host"@ && key != "--metrics"@ ==> {
            &&& command_of(seq![key + seq!['='] + value] + rest, address) == command_of(
                rest,
                address,
            )
            &&& key == "--help"@ || key == "-h"@ ==> command_of(seq![key] + rest, address)
                == GuiCommandView::Help(address)
            &&& key != "--help"@ && key != "-h"@ ==> command_of(seq![key] + rest, address)
                == command_of(rest, key)
        },
{
    let joined = key + seq!['='] + value;
    lemma_joined(key, value);
    assert((seq![joined] + rest).skip(1) =~= rest);
    assert((seq![joined] + rest)[0] == joined);
    law_first_is_the_first(key, '=');
    assert((seq![key, value] + rest).skip(2) =~= rest);
    assert((seq![key, value] + rest)[0] == key);
    assert((seq![key, value] + rest)[1] == value);
    assert((seq![key] + rest).skip(1) =~= rest);
    assert((seq![key] + rest)[0] == key);
    assert(seq![key][0] == key);
}

/// Law: without arguments the pipeline runs the scheduler with one thread and serves its metrics on port
/// 9999 of the local host.
pub proof fn law_defaults_are_local()
    ensures
        options_of(Seq::empty(), default_options()).scheduler == SchedulerKind::Single,
        options_of(Seq::empty(), default_options()).metrics_bind == with_port("127.0.0.1"@),
{
    reveal_strlit("127.0.0.1");
    reveal_strlit("127.0.0.1:9999");
    reveal_strlit(":9999");
    assert(!"127.0.0.1"@.contains(':'));
    assert("127.0.0.1:9999"@ =~= "127.0.0.1"@ + ":9999"@);
}

} // verus!
