//! Command-line parsing: `--name value` flags, the `--full` switch, decimal
//! integers, the commands of the daemon binary, and hex output.
use vstd::prelude::*;
use vstd::string::{StrSliceExecFns, StringExecFns};

verus! {

/// The text of `s` after a leading `--`, if it has one.
pub open spec fn strip_dashes(s: Seq<char>) -> Option<Seq<char>> {
    if s.len() >= 2 && s[0] == '-' && s[1] == '-' {
        Some(s.skip(2))
    } else {
        None
    }
}

/// Whether two texts are equal.
pub fn same_text(a: &str, b: &str) -> (r: bool)
    ensures
        r == (a@ == b@),
{
    let n = a.unicode_len();
    let m = b.unicode_len();
    if n != m {
        return false;
    }
    let mut i: usize = 0;
    while i < n
        invariant
            n == a@.len(),
            m == b@.len(),
            n == m,
            i <= n,
            forall|j: int| 0 <= j < i ==> a@[j] == b@[j],
        decreases n - i,
    {
        if a.get_char(i) != b.get_char(i) {
            return false;
        }
        i = i + 1;
    }
    assert(a@ =~= b@);
    true
}

fn strip_dashes_exec(s: &str) -> (r: Option<&str>)
    ensures
        match r {
            Some(rest) => strip_dashes(s@) == Some(rest@),
            None => strip_dashes(s@) is None,
        },
{
    let n = s.unicode_len();
    if n >= 2 && s.get_char(0) == '-' && s.get_char(1) == '-' {
        Some(s.substring_char(2, n))
    } else {
        None
    }
}

/// Whether `c` is an ASCII decimal digit.
pub open spec fn is_digit(c: char) -> bool {
    '0' <= c <= '9'
}

/// The value of a sequence of decimal digits.
pub open spec fn digits_value(d: Seq<char>) -> nat
    decreases d.len(),
{
    if d.len() == 0 {
        0
    } else {
        digits_value(d.drop_last()) * 10 + (d.last() as nat - '0' as nat) as nat
    }
}

/// The digits of an unsigned integer text: the text without one leading `+`.
pub open spec fn unsigned_digits(s: Seq<char>) -> Seq<char> {
    if s.len() > 0 && s[0] == '+' {
        s.skip(1)
    } else {
        s
    }
}

/// Whether `s` is the decimal text of a `u64`: an optional `+`, then one or
/// more digits whose value fits.
pub open spec fn parses_as_u64(s: Seq<char>) -> bool {
    let d = unsigned_digits(s);
    &&& d.len() > 0
    &&& forall|i: int| 0 <= i < d.len() ==> is_digit(#[trigger] d[i])
    &&& digits_value(d) <= u64::MAX
}

/// Why a text is not a `u64`, in the terms of `core::num::IntErrorKind`.
#[derive(Debug, Clone, Copy, PartialEq, Eq, Structural)]
pub enum IntParseError {
    /// The text is empty.
    Empty,
    /// The text holds a character that is not a digit.
    InvalidDigit,
    /// The value is too large for a `u64`.
    PosOverflow,
}

/// The value of a digit character.
pub open spec fn digit_value(c: char) -> nat {
    (c as nat - '0' as nat) as nat
}

/// Reads the digits `d[i..]` after the value `acc` of those before them,
/// left to right: the first character that is not a digit is an
/// `InvalidDigit`, and a value that grows past `u64::MAX` before one is met
/// is a `PosOverflow`.
pub open spec fn scan_u64(d: Seq<char>, i: int, acc: nat) -> Result<u64, IntParseError>
    decreases d.len() - i,
{
    if i < 0 || i >= d.len() {
        Ok(acc as u64)
    } else if !is_digit(d[i]) {
        Err(IntParseError::InvalidDigit)
    } else if acc * 10 + digit_value(d[i]) > u64::MAX {
        Err(IntParseError::PosOverflow)
    } else {
        scan_u64(d, i + 1, acc * 10 + digit_value(d[i]))
    }
}

/// How `u64::from_str` reads a text: an empty text is `Empty`, a lone sign
/// is an `InvalidDigit`, otherwise the digits after an optional `+` are read
/// left to right.
pub open spec fn spec_parse_u64(s: Seq<char>) -> Result<u64, IntParseError> {
    if s.len() == 0 {
        Err(IntParseError::Empty)
    } else if s.len() == 1 && (s[0] == '+' || s[0] == '-') {
        Err(IntParseError::InvalidDigit)
    } else {
        scan_u64(unsigned_digits(s), 0, 0)
    }
}

proof fn lemma_digits_prefix(d: Seq<char>, i: int)
    requires
        0 <= i < d.len(),
    ensures
        digits_value(d.take(i + 1)) == digits_value(d.take(i)) * 10 + digit_value(d[i]),
{
    assert(d.take(i + 1).drop_last() =~= d.take(i));
}

proof fn lemma_digits_monotone(d: Seq<char>, i: int)
    requires
        0 <= i <= d.len(),
    ensures
        digits_value(d.take(i)) <= digits_value(d),
    decreases d.len() - i,
{
    if i < d.len() {
        lemma_digits_prefix(d, i);
        lemma_digits_monotone(d, i + 1);
    } else {
        assert(d.take(i) =~= d);
    }
}

proof fn lemma_scan_u64(d: Seq<char>, i: int)
    requires
        0 <= i <= d.len(),
        digits_value(d.take(i)) <= u64::MAX,
    ensures
        scan_u64(d, i, digits_value(d.take(i))) is Ok <==> (forall|j: int|
            i <= j < d.len() ==> is_digit(#[trigger] d[j])) && digits_value(d) <= u64::MAX,
        scan_u64(d, i, digits_value(d.take(i))) matches Ok(v) ==> v == digits_value(d),
    decreases d.len() - i,
{
    if i == d.len() {
        assert(d.take(i) =~= d);
    } else {
        lemma_digits_prefix(d, i);
        if is_digit(d[i]) {
            if digits_value(d.take(i + 1)) <= u64::MAX {
                lemma_scan_u64(d, i + 1);
                assert((forall|j: int| i + 1 <= j < d.len() ==> is_digit(#[trigger] d[j])) ==> (
                forall|j: int| i <= j < d.len() ==> is_digit(#[trigger] d[j])));
            } else {
                lemma_digits_monotone(d, i + 1);
            }
        }
    }
}

/// `u64::from_str` accepts exactly an optional `+` followed by one or more
/// decimal digits whose value fits in a `u64`, and gives that value.
pub proof fn lemma_parse_u64_accepts(s: Seq<char>)
    ensures
        spec_parse_u64(s) is Ok <==> parses_as_u64(s),
        spec_parse_u64(s) matches Ok(v) ==> v == digits_value(unsigned_digits(s)),
{
    let d = unsigned_digits(s);
    assert(d.take(0) =~= Seq::<char>::empty());
    lemma_scan_u64(d, 0);
    if s.len() == 1 && s[0] == '-' {
        assert(!is_digit(d[0]));
    }
}

/// Reads a `u64` from its decimal text as `u64::from_str` does.
fn parse_u64_text(s: &str) -> (r: Result<u64, IntParseError>)
    ensures
        r == spec_parse_u64(s@),
{
    let n = s.unicode_len();
    if n == 0 {
        return Err(IntParseError::Empty);
    }
    let first = s.get_char(0);
    if n == 1 && (first == '+' || first == '-') {
        return Err(IntParseError::InvalidDigit);
    }
    let start: usize = if first == '+' {
        1
    } else {
        0
    };
    let ghost d = unsigned_digits(s@);
    assert(d =~= s@.skip(start as int));
    assert(spec_parse_u64(s@) == scan_u64(d, 0, 0));
    let mut acc: u64 = 0;
    let mut i: usize = start;
    while i < n
        invariant
            n == s@.len(),
            start <= i <= n,
            start <= 1,
            d == s@.skip(start as int),
            d.len() == n - start,
            spec_parse_u64(s@) == scan_u64(d, 0, 0),
            scan_u64(d, 0, 0) == scan_u64(d, i - start, acc as nat),
        decreases n - i,
    {
        let c = s.get_char(i);
        assert(c == d[i - start]);
        if !('0' <= c && c <= '9') {
            return Err(IntParseError::InvalidDigit);
        }
        let x = (c as u32 - '0' as u32) as u64;
        assert(x == digit_value(c));
        let next = (acc as u128) * 10 + (x as u128);
        if next > u64::MAX as u128 {
            return Err(IntParseError::PosOverflow);
        }
        acc = next as u64;
        i = i + 1;
    }
    Ok(acc)
}

/// Why a command line was refused.
#[derive(Debug)]
pub enum CliError {
    /// An argument that does not start with `--` where a flag was expected.
    UnexpectedPositional { arg: String },
    /// A flag that takes a value came last.
    MissingValue { name: String },
    /// A required flag was not given.
    MissingFlag { name: String },
    /// A flag's value is not a `u64`.
    InvalidInteger { flag: String, value: String, kind: IntParseError },
    /// The command is not one of the known commands.
    UnknownCommand { command: String },
}

/// The mathematical value of a `CliError`.
pub enum CliErrorView {
    UnexpectedPositional { arg: Seq<char> },
    MissingValue { name: Seq<char> },
    MissingFlag { name: Seq<char> },
    InvalidInteger { flag: Seq<char>, value: Seq<char>, kind: IntParseError },
    UnknownCommand { command: Seq<char> },
}

impl View for CliError {
    type V = CliErrorView;

    open spec fn view(&self) -> CliErrorView {
        match self {
            CliError::UnexpectedPositional { arg } => CliErrorView::UnexpectedPositional {
                arg: arg@,
            },
            CliError::MissingValue { name } => CliErrorView::MissingValue { name: name@ },
            CliError::MissingFlag { name } => CliErrorView::MissingFlag { name: name@ },
            CliError::InvalidInteger { flag, value, kind } => CliErrorView::InvalidInteger {
                flag: flag@,
                value: value@,
                kind: *kind,
            },
            CliError::UnknownCommand { command } => CliErrorView::UnknownCommand {
                command: command@,
            },
        }
    }
}

/// The result of parsing the text `value` of flag `flag` as a `u64`.
pub open spec fn spec_flag_u64(flag: Seq<char>, value: Seq<char>) -> Result<u64, CliErrorView> {
    match spec_parse_u64(value) {
        Ok(v) => Ok(v),
        Err(kind) => Err(CliErrorView::InvalidInteger { flag, value, kind }),
    }
}

/// Parses the text `value` of flag `flag` as a `u64`.
pub fn parse_u64(value: &str, flag: &str) -> (r: Result<u64, CliError>)
    ensures
        match r {
            Ok(v) => spec_flag_u64(flag@, value@) == Ok::<u64, CliErrorView>(v),
            Err(e) => spec_flag_u64(flag@, value@) == Err::<u64, CliErrorView>(e@),
        },
{
    match parse_u64_text(value) {
        Ok(v) => Ok(v),
        Err(kind) => Err(
            CliError::InvalidInteger { flag: flag.to_owned(), value: value.to_owned(), kind },
        ),
    }
}

/// The flags of a command line: `--name value` pairs in the order given, and
/// the `--full` switches.
pub struct Flags {
    values: Vec<(String, String)>,
    bools: Vec<String>,
}

/// The mathematical value of `Flags`.
pub struct FlagsView {
    pub values: Seq<(Seq<char>, Seq<char>)>,
    pub bools: Seq<Seq<char>>,
}

impl View for Flags {
    type V = FlagsView;

    closed spec fn view(&self) -> FlagsView {
        FlagsView {
            values: self.values@.map_values(|p: (String, String)| (p.0@, p.1@)),
            bools: self.bools@.map_values(|s: String| s@),
        }
    }
}

/// The value last given for flag `name`, if any: a later `--name` replaces
/// an earlier one.
pub open spec fn flag_value(values: Seq<(Seq<char>, Seq<char>)>, name: Seq<char>) -> Option<
    Seq<char>,
>
    decreases values.len(),
{
    if values.len() == 0 {
        None
    } else if values.last().0 == name {
        Some(values.last().1)
    } else {
        flag_value(values.drop_last(), name)
    }
}

/// The name of the one switch that takes no value.
pub open spec fn full_flag() -> Seq<char> {
    seq!['f', 'u', 'l', 'l']
}

/// Parses the flags in `args[i..]`, given those already parsed.
pub open spec fn parse_flags_from(args: Seq<Seq<char>>, i: int, acc: FlagsView) -> Result<
    FlagsView,
    CliErrorView,
>
    decreases args.len() - i,
{
    if i < 0 || i >= args.len() {
        Ok(acc)
    } else {
        match strip_dashes(args[i]) {
            None => Err(CliErrorView::UnexpectedPositional { arg: args[i] }),
            Some(name) => if name == full_flag() {
                parse_flags_from(
                    args,
                    i + 1,
                    FlagsView { values: acc.values, bools: acc.bools.push(name) },
                )
            } else if i + 1 >= args.len() {
                Err(CliErrorView::MissingValue { name })
            } else {
                parse_flags_from(
                    args,
                    i + 2,
                    FlagsView { values: acc.values.push((name, args[i + 1])), bools: acc.bools },
                )
            },
        }
    }
}

/// The flags of a whole argument list.
pub open spec fn spec_parse_flags(args: Seq<Seq<char>>) -> Result<FlagsView, CliErrorView> {
    parse_flags_from(args, 0, FlagsView { values: Seq::empty(), bools: Seq::empty() })
}

/// The texts of a list of arguments.
pub open spec fn texts(args: Seq<String>) -> Seq<Seq<char>> {
    args.map_values(|s: String| s@)
}

impl Flags {
    /// Parses `--name value` pairs and `--full` switches; anything else is
    /// refused.
    pub fn parse(args: &Vec<String>) -> (r: Result<Flags, CliError>)
        ensures
            match r {
                Ok(flags) => spec_parse_flags(texts(args@)) == Ok::<FlagsView, CliErrorView>(
                    flags@,
                ),
                Err(e) => spec_parse_flags(texts(args@)) == Err::<FlagsView, CliErrorView>(e@),
            },
    {
        let ghost a = texts(args@);
        let mut flags = Flags { values: Vec::new(), bools: Vec::new() };
        proof {
            assert(flags@.values =~= Seq::empty());
            assert(flags@.bools =~= Seq::empty());
        }
        let n = args.len();
        let mut i: usize = 0;
        while i < n
            invariant
                n == args@.len(),
                a == texts(args@),
                i <= n,
                spec_parse_flags(a) == parse_flags_from(a, i as int, flags@),
            decreases n - i,
        {
            let arg = args[i].as_str();
            match strip_dashes_exec(arg) {
                None => {
                    return Err(CliError::UnexpectedPositional { arg: arg.to_owned() });
                },
                Some(name) => {
                    if same_text(name, "full") {
                        proof {
                            reveal_strlit("full");
                            assert("full"@ =~= full_flag());
                        }
                        let ghost before = flags@;
                        flags.bools.push(name.to_owned());
                        proof {
                            assert(flags@.bools =~= before.bools.push(name@));
                            assert(flags@.values =~= before.values);
                        }
                        i = i + 1;
                    } else {
                        proof {
                            reveal_strlit("full");
                            assert("full"@ =~= full_flag());
                        }
                        if i + 1 >= n {
                            return Err(CliError::MissingValue { name: name.to_owned() });
                        }
                        let ghost before = flags@;
                        let value = args[i + 1].clone();
                        flags.values.push((name.to_owned(), value));
                        proof {
                            assert(flags@.values =~= before.values.push((name@, a[i + 1])));
                            assert(flags@.bools =~= before.bools);
                        }
                        i = i + 2;
                    }
                },
            }
        }
        Ok(flags)
    }

    /// The value last given for flag `name`, if any.
    pub fn optional(&self, name: &str) -> (r: Option<String>)
        ensures
            match r {
                Some(v) => flag_value(self@.values, name@) == Some(v@),
                None => flag_value(self@.values, name@) is None,
            },
    {
        let mut i = self.values.len();
        assert(self@.values.subrange(0, i as int) =~= self@.values);
        while i > 0
            invariant
                i <= self.values@.len(),
                flag_value(self@.values, name@) == flag_value(
                    self@.values.subrange(0, i as int),
                    name@,
                ),
            decreases i,
        {
            let key = self.values[i - 1].0.as_str();
            if same_text(key, name) {
                let value = self.values[i - 1].1.clone();
                proof {
                    let s = self@.values.subrange(0, i as int);
                    assert(s.last() == self@.values[i - 1]);
                }
                return Some(value);
            }
            proof {
                let s = self@.values.subrange(0, i as int);
                assert(s.drop_last() =~= self@.values.subrange(0, i - 1));
            }
            i = i - 1;
        }
        None
    }

    /// The value of a flag that must be given.
    pub fn required(&self, name: &str) -> (r: Result<String, CliError>)
        ensures
            match flag_value(self@.values, name@) {
                Some(v) => r matches Ok(s) && s@ == v,
                None => r matches Err(e) && e@ == (CliErrorView::MissingFlag { name: name@ }),
            },
    {
        match self.optional(name) {
            Some(v) => Ok(v),
            None => Err(CliError::MissingFlag { name: name.to_owned() }),
        }
    }

    /// The value of flag `name` as a `u64`, if the flag was given.
    pub fn optional_u64(&self, name: &str) -> (r: Result<Option<u64>, CliError>)
        ensures
            match flag_value(self@.values, name@) {
                None => r matches Ok(None),
                Some(text) => match spec_flag_u64(name@, text) {
                    Ok(v) => r matches Ok(Some(x)) && x == v,
                    Err(e) => r matches Err(err) && err@ == e,
                },
            },
    {
        match self.optional(name) {
            None => Ok(None),
            Some(text) => {
                let v = parse_u64(text.as_str(), name)?;
                Ok(Some(v))
            },
        }
    }

    /// Whether the switch `name` was given.
    pub fn has(&self, name: &str) -> (r: bool)
        ensures
            r == self@.bools.contains(name@),
    {
        let n = self.bools.len();
        let mut i: usize = 0;
        while i < n
            invariant
                n == self@.bools.len(),
                i <= n,
                forall|j: int| 0 <= j < i ==> self@.bools[j] != name@,
            decreases n - i,
        {
            if same_text(self.bools[i].as_str(), name) {
                proof {
                    assert(self@.bools[i as int] == name@);
                }
                return true;
            }
            i = i + 1;
        }
        false
    }
}


/// A command of the daemon binary, with its flags read.
pub enum Command {
    /// Run a Secondary daemon.
    Secondary { listen: String, backing: String, size_mib: u64, block_size: u64 },
    /// Run a Primary daemon; without `bitmap`, the bitmap lies beside the
    /// backing file.
    Primary {
        listen: String,
        peer: String,
        backing: String,
        bitmap: Option<String>,
        size_mib: u64,
        block_size: u64,
    },
    /// Write `data` at `offset` through the daemon at `target`.
    Write { target: String, offset: u64, data: String },
    /// Read `len` bytes at `offset` from the daemon at `target`.
    Read { target: String, offset: u64, len: u64 },
    /// Ask the Primary at `target` to resync.
    Resync { target: String, full: bool },
    /// Ask the daemon at `target` for its state.
    Status { target: String },
    /// Ask the daemon at `target` for its checksum.
    Checksum { target: String },
    /// Run both daemons in this process, under `dir` if given.
    Demo { dir: Option<String> },
    /// Print the usage text.
    Help,
}

/// The mathematical value of a `Command`.
pub enum CommandView {
    Secondary { listen: Seq<char>, backing: Seq<char>, size_mib: u64, block_size: u64 },
    Primary {
        listen: Seq<char>,
        peer: Seq<char>,
        backing: Seq<char>,
        bitmap: Option<Seq<char>>,
        size_mib: u64,
        block_size: u64,
    },
    Write { target: Seq<char>, offset: u64, data: Seq<char> },
    Read { target: Seq<char>, offset: u64, len: u64 },
    Resync { target: Seq<char>, full: bool },
    Status { target: Seq<char> },
    Checksum { target: Seq<char> },
    Demo { dir: Option<Seq<char>> },
    Help,
}

/// The text of an optional text.
pub open spec fn opt_text(s: Option<String>) -> Option<Seq<char>> {
    match s {
        Some(t) => Some(t@),
        None => None,
    }
}

impl View for Command {
    type V = CommandView;

    open spec fn view(&self) -> CommandView {
        match self {
            Command::Secondary { listen, backing, size_mib, block_size } => CommandView::Secondary {
                listen: listen@,
                backing: backing@,
                size_mib: *size_mib,
                block_size: *block_size,
            },
            Command::Primary { listen, peer, backing, bitmap, size_mib, block_size } =>
                CommandView::Primary {
                listen: listen@,
                peer: peer@,
                backing: backing@,
                bitmap: opt_text(*bitmap),
                size_mib: *size_mib,
                block_size: *block_size,
            },
            Command::Write { target, offset, data } => CommandView::Write {
                target: target@,
                offset: *offset,
                data: data@,
            },
            Command::Read { target, offset, len } => CommandView::Read {
                target: target@,
                offset: *offset,
                len: *len,
            },
            Command::Resync { target, full } => CommandView::Resync { target: target@, full: *full },
            Command::Status { target } => CommandView::Status { target: target@ },
            Command::Checksum { target } => CommandView::Checksum { target: target@ },
            Command::Demo { dir } => CommandView::Demo { dir: opt_text(*dir) },
            Command::Help => CommandView::Help,
        }
    }
}

/// The value of a required flag.
pub open spec fn spec_required(f: FlagsView, name: Seq<char>) -> Result<Seq<char>, CliErrorView> {
    match flag_value(f.values, name) {
        Some(v) => Ok(v),
        None => Err(CliErrorView::MissingFlag { name }),
    }
}

/// The value of an optional integer flag, or `default` when it is absent.
pub open spec fn spec_u64_or(f: FlagsView, name: Seq<char>, default: u64) -> Result<
    u64,
    CliErrorView,
> {
    match flag_value(f.values, name) {
        Some(text) => spec_flag_u64(name, text),
        None => Ok(default),
    }
}

/// Address flags read before a refusal, as `(flag, text)` pairs in the
/// order they were read.
pub type AddressesView = Seq<(Seq<char>, Seq<char>)>;

/// A refusal of a command line, after the address flags that were read
/// before it.
pub open spec fn refused(addresses: AddressesView, e: CliErrorView) -> Result<
    CommandView,
    (AddressesView, CliErrorView),
> {
    Err((addresses, e))
}

/// The flags of a daemon command: listen address, backing file, size in
/// MiB (64 by default) and block size (4096 by default).
pub open spec fn spec_secondary(f: FlagsView) -> Result<CommandView, (AddressesView, CliErrorView)> {
    match spec_required(f, "listen"@) {
        Err(e) => refused(seq![], e),
        Ok(listen) => {
            let read = seq![("listen"@, listen)];
            match spec_required(f, "backing"@) {
                Err(e) => refused(read, e),
                Ok(backing) => match spec_u64_or(f, "size-mib"@, 64) {
                    Err(e) => refused(read, e),
                    Ok(size_mib) => match spec_u64_or(f, "block-size"@, 4096) {
                        Err(e) => refused(read, e),
                        Ok(block_size) => Ok(
                            CommandView::Secondary { listen, backing, size_mib, block_size },
                        ),
                    },
                },
            }
        },
    }
}

/// The flags of the Primary: backing file, optional bitmap path, listen and
/// peer addresses, size in MiB (64) and block size (4096).
pub open spec fn spec_primary(f: FlagsView) -> Result<CommandView, (AddressesView, CliErrorView)> {
    match spec_required(f, "backing"@) {
        Err(e) => refused(seq![], e),
        Ok(backing) => {
            let bitmap = flag_value(f.values, "bitmap"@);
            match spec_required(f, "listen"@) {
                Err(e) => refused(seq![], e),
                Ok(listen) => match spec_required(f, "peer"@) {
                    Err(e) => refused(seq![("listen"@, listen)], e),
                    Ok(peer) => {
                        let read = seq![("listen"@, listen), ("peer"@, peer)];
                        match spec_u64_or(f, "size-mib"@, 64) {
                            Err(e) => refused(read, e),
                            Ok(size_mib) => match spec_u64_or(f, "block-size"@, 4096) {
                                Err(e) => refused(read, e),
                                Ok(block_size) => Ok(
                                    CommandView::Primary {
                                        listen,
                                        peer,
                                        backing,
                                        bitmap,
                                        size_mib,
                                        block_size,
                                    },
                                ),
                            },
                        }
                    },
                },
            }
        },
    }
}

/// The flags of a client command that talks to `--target`.
pub open spec fn spec_client(cmd: Seq<char>, f: FlagsView) -> Result<
    CommandView,
    (AddressesView, CliErrorView),
> {
    match spec_required(f, "target"@) {
        Err(e) => refused(seq![], e),
        Ok(target) => {
            let read = seq![("target"@, target)];
            if cmd == "write"@ {
                match spec_u64_or(f, "offset"@, 0) {
                    Err(e) => refused(read, e),
                    Ok(offset) => match spec_required(f, "data"@) {
                        Err(e) => refused(read, e),
                        Ok(data) => Ok(CommandView::Write { target, offset, data }),
                    },
                }
            } else if cmd == "read"@ {
                match spec_u64_or(f, "offset"@, 0) {
                    Err(e) => refused(read, e),
                    Ok(offset) => match spec_required(f, "len"@) {
                        Err(e) => refused(read, e),
                        Ok(text) => match spec_flag_u64("len"@, text) {
                            Err(e) => refused(read, e),
                            Ok(len) => Ok(CommandView::Read { target, offset, len }),
                        },
                    },
                }
            } else if cmd == "resync"@ {
                Ok(CommandView::Resync { target, full: f.bools.contains(full_flag()) })
            } else if cmd == "status"@ {
                Ok(CommandView::Status { target })
            } else {
                Ok(CommandView::Checksum { target })
            }
        },
    }
}

/// Whether `cmd` names a command that talks to a daemon at `--target`.
pub open spec fn is_client_command(cmd: Seq<char>) -> bool {
    cmd == "write"@ || cmd == "read"@ || cmd == "resync"@ || cmd == "status"@ || cmd
        == "checksum"@
}

/// The command that an argument list asks for: the first argument names it,
/// the rest are its flags; no argument at all asks for help. A refusal comes
/// with the address flags read before it, which the caller checks first,
/// in that order.
pub open spec fn spec_parse_command(args: Seq<Seq<char>>) -> Result<
    CommandView,
    (AddressesView, CliErrorView),
> {
    if args.len() == 0 {
        Ok(CommandView::Help)
    } else {
        let cmd = args[0];
        let rest = args.skip(1);
        if cmd == "secondary"@ || cmd == "primary"@ || is_client_command(cmd) || cmd == "demo"@ {
            match spec_parse_flags(rest) {
                Err(e) => refused(seq![], e),
                Ok(f) => if cmd == "secondary"@ {
                    spec_secondary(f)
                } else if cmd == "primary"@ {
                    spec_primary(f)
                } else if cmd == "demo"@ {
                    Ok(CommandView::Demo { dir: flag_value(f.values, "dir"@) })
                } else {
                    spec_client(cmd, f)
                },
            }
        } else if cmd == "-h"@ || cmd == "--help"@ || cmd == "help"@ {
            Ok(CommandView::Help)
        } else {
            refused(seq![], CliErrorView::UnknownCommand { command: cmd })
        }
    }
}

/// A refused command line: the error, after the address flags (flag name
/// and text, in the order read) that were read before it.
#[derive(Debug)]
pub struct CommandError {
    pub addresses: Vec<(String, String)>,
    pub error: CliError,
}

impl View for CommandError {
    type V = (AddressesView, CliErrorView);

    open spec fn view(&self) -> (AddressesView, CliErrorView) {
        (self.addresses@.map_values(|p: (String, String)| (p.0@, p.1@)), self.error@)
    }
}

fn refuse(addresses: Vec<(String, String)>, error: CliError) -> (e: CommandError)
    ensures
        e.addresses == addresses,
        e.error == error,
{
    CommandError { addresses, error }
}

fn address(flag: &str, text: &String) -> (pair: (String, String))
    ensures
        pair.0@ == flag@,
        pair.1@ == text@,
{
    (flag.to_owned(), text.clone())
}

fn u64_or(flags: &Flags, name: &str, default: u64) -> (r: Result<u64, CliError>)
    ensures
        match r {
            Ok(v) => spec_u64_or(flags@, name@, default) == Ok::<u64, CliErrorView>(v),
            Err(e) => spec_u64_or(flags@, name@, default) == Err::<u64, CliErrorView>(e@),
        },
{
    match flags.optional_u64(name)? {
        Some(v) => Ok(v),
        None => Ok(default),
    }
}

fn required_text(flags: &Flags, name: &str) -> (r: Result<String, CliError>)
    ensures
        match r {
            Ok(v) => spec_required(flags@, name@) == Ok::<Seq<char>, CliErrorView>(v@),
            Err(e) => spec_required(flags@, name@) == Err::<Seq<char>, CliErrorView>(e@),
        },
{
    flags.required(name)
}

fn parse_secondary(flags: &Flags) -> (r: Result<Command, CommandError>)
    ensures
        match r {
            Ok(c) => spec_secondary(flags@) == Ok::<CommandView, (AddressesView, CliErrorView)>(c@),
            Err(e) => spec_secondary(flags@) == Err::<CommandView, (AddressesView, CliErrorView)>(
                e@,
            ),
        },
{
    let listen = match required_text(flags, "listen") {
        Ok(v) => v,
        Err(e) => {
            let none: Vec<(String, String)> = Vec::new();
            assert(none@.map_values(|p: (String, String)| (p.0@, p.1@)) =~= seq![]);
            return Err(refuse(none, e));
        },
    };
    let mut read: Vec<(String, String)> = Vec::new();
    read.push(address("listen", &listen));
    let ghost rv = seq![("listen"@, listen@)];
    assert(read@.map_values(|p: (String, String)| (p.0@, p.1@)) =~= rv);
    let backing = match required_text(flags, "backing") {
        Ok(v) => v,
        Err(e) => return Err(refuse(read, e)),
    };
    let size_mib = match u64_or(flags, "size-mib", 64) {
        Ok(v) => v,
        Err(e) => return Err(refuse(read, e)),
    };
    let block_size = match u64_or(flags, "block-size", 4096) {
        Ok(v) => v,
        Err(e) => return Err(refuse(read, e)),
    };
    Ok(Command::Secondary { listen, backing, size_mib, block_size })
}

fn parse_primary(flags: &Flags) -> (r: Result<Command, CommandError>)
    ensures
        match r {
            Ok(c) => spec_primary(flags@) == Ok::<CommandView, (AddressesView, CliErrorView)>(c@),
            Err(e) => spec_primary(flags@) == Err::<CommandView, (AddressesView, CliErrorView)>(
                e@,
            ),
        },
{
    let none: Vec<(String, String)> = Vec::new();
    assert(none@.map_values(|p: (String, String)| (p.0@, p.1@)) =~= seq![]);
    let backing = match required_text(flags, "backing") {
        Ok(v) => v,
        Err(e) => return Err(refuse(none, e)),
    };
    let bitmap = flags.optional("bitmap");
    let listen = match required_text(flags, "listen") {
        Ok(v) => v,
        Err(e) => return Err(refuse(none, e)),
    };
    let mut read: Vec<(String, String)> = Vec::new();
    read.push(address("listen", &listen));
    assert(read@.map_values(|p: (String, String)| (p.0@, p.1@)) =~= seq![("listen"@, listen@)]);
    let peer = match required_text(flags, "peer") {
        Ok(v) => v,
        Err(e) => return Err(refuse(read, e)),
    };
    read.push(address("peer", &peer));
    assert(read@.map_values(|p: (String, String)| (p.0@, p.1@)) =~= seq![
        ("listen"@, listen@),
        ("peer"@, peer@),
    ]);
    let size_mib = match u64_or(flags, "size-mib", 64) {
        Ok(v) => v,
        Err(e) => return Err(refuse(read, e)),
    };
    let block_size = match u64_or(flags, "block-size", 4096) {
        Ok(v) => v,
        Err(e) => return Err(refuse(read, e)),
    };
    Ok(Command::Primary { listen, peer, backing, bitmap, size_mib, block_size })
}

fn parse_client(cmd: &str, flags: &Flags) -> (r: Result<Command, CommandError>)
    requires
        is_client_command(cmd@),
    ensures
        match r {
            Ok(c) => spec_client(cmd@, flags@) == Ok::<CommandView, (AddressesView, CliErrorView)>(
                c@,
            ),
            Err(e) => spec_client(cmd@, flags@) == Err::<
                CommandView,
                (AddressesView, CliErrorView),
            >(e@),
        },
{
    let target = match required_text(flags, "target") {
        Ok(v) => v,
        Err(e) => {
            let none: Vec<(String, String)> = Vec::new();
            assert(none@.map_values(|p: (String, String)| (p.0@, p.1@)) =~= seq![]);
            return Err(refuse(none, e));
        },
    };
    let mut read: Vec<(String, String)> = Vec::new();
    read.push(address("target", &target));
    assert(read@.map_values(|p: (String, String)| (p.0@, p.1@)) =~= seq![("target"@, target@)]);
    if same_text(cmd, "write") {
        let offset = match u64_or(flags, "offset", 0) {
            Ok(v) => v,
            Err(e) => return Err(refuse(read, e)),
        };
        let data = match required_text(flags, "data") {
            Ok(v) => v,
            Err(e) => return Err(refuse(read, e)),
        };
        Ok(Command::Write { target, offset, data })
    } else if same_text(cmd, "read") {
        let offset = match u64_or(flags, "offset", 0) {
            Ok(v) => v,
            Err(e) => return Err(refuse(read, e)),
        };
        let text = match required_text(flags, "len") {
            Ok(v) => v,
            Err(e) => return Err(refuse(read, e)),
        };
        let len = match parse_u64(text.as_str(), "len") {
            Ok(v) => v,
            Err(e) => return Err(refuse(read, e)),
        };
        Ok(Command::Read { target, offset, len })
    } else if same_text(cmd, "resync") {
        let full = flags.has("full");
        proof {
            reveal_strlit("full");
            assert("full"@ =~= full_flag());
        }
        Ok(Command::Resync { target, full })
    } else if same_text(cmd, "status") {
        Ok(Command::Status { target })
    } else {
        Ok(Command::Checksum { target })
    }
}

fn clone_tail(args: &Vec<String>) -> (rest: Vec<String>)
    requires
        args@.len() >= 1,
    ensures
        texts(rest@) == texts(args@).skip(1),
{
    let mut rest: Vec<String> = Vec::new();
    let n = args.len();
    let mut i: usize = 1;
    while i < n
        invariant
            n == args@.len(),
            1 <= i <= n,
            texts(rest@) == texts(args@).subrange(1, i as int),
        decreases n - i,
    {
        let ghost before = rest@;
        let s = args[i].clone();
        rest.push(s);
        proof {
            assert(rest@ == before.push(args@[i as int]));
            assert(texts(rest@) =~= texts(before).push(args@[i as int]@));
        }
        i = i + 1;
        assert(texts(rest@) =~= texts(args@).subrange(1, i as int));
    }
    assert(texts(args@).subrange(1, n as int) =~= texts(args@).skip(1));
    rest
}

/// Reads the command that an argument list asks for. A refusal carries the
/// address flags read before it, for the caller to check first.
pub fn parse_command(args: &Vec<String>) -> (r: Result<Command, CommandError>)
    ensures
        match r {
            Ok(c) => spec_parse_command(texts(args@)) == Ok::<
                CommandView,
                (AddressesView, CliErrorView),
            >(c@),
            Err(e) => spec_parse_command(texts(args@)) == Err::<
                CommandView,
                (AddressesView, CliErrorView),
            >(e@),
        },
{
    if args.len() == 0 {
        return Ok(Command::Help);
    }
    let cmd = args[0].as_str();
    let secondary = same_text(cmd, "secondary");
    let primary = same_text(cmd, "primary");
    let client = same_text(cmd, "write") || same_text(cmd, "read") || same_text(cmd, "resync")
        || same_text(cmd, "status") || same_text(cmd, "checksum");
    let demo = same_text(cmd, "demo");
    let none: Vec<(String, String)> = Vec::new();
    assert(none@.map_values(|p: (String, String)| (p.0@, p.1@)) =~= seq![]);
    if secondary || primary || client || demo {
        let rest = clone_tail(args);
        let flags = match Flags::parse(&rest) {
            Ok(f) => f,
            Err(e) => return Err(refuse(none, e)),
        };
        if secondary {
            parse_secondary(&flags)
        } else if primary {
            parse_primary(&flags)
        } else if demo {
            let dir = flags.optional("dir");
            Ok(Command::Demo { dir })
        } else {
            parse_client(cmd, &flags)
        }
    } else if same_text(cmd, "-h") || same_text(cmd, "--help") || same_text(cmd, "help") {
        Ok(Command::Help)
    } else {
        Err(refuse(none, CliError::UnknownCommand { command: cmd.to_owned() }))
    }
}

/// The `resync` command asks for a full resync exactly when the `--full`
/// switch was given: with a target, it parses to `Resync` with that target
/// and `full` true if and only if the flags hold the switch `full`.
pub proof fn lemma_resync_full_only_with_switch(f: FlagsView, target: Seq<char>)
    requires
        flag_value(f.values, "target"@) == Some(target),
    ensures
        spec_client("resync"@, f) == Ok::<CommandView, (AddressesView, CliErrorView)>(
            CommandView::Resync { target, full: f.bools.contains("full"@) },
        ),
{
    reveal_strlit("resync");
    reveal_strlit("write");
    reveal_strlit("read");
    reveal_strlit("full");
    assert("full"@ =~= full_flag());
    assert("resync"@ != "write"@) by {
        assert("resync"@.len() != "write"@.len());
    }
    assert("resync"@ != "read"@) by {
        assert("resync"@.len() != "read"@.len());
    }
}

/// `resync --target T` replays only the dirty blocks and
/// `resync --target T --full` replays every block, whatever the target.
pub proof fn lemma_resync_command_line(target: Seq<char>)
    ensures
        spec_parse_command(seq!["resync"@, "--target"@, target]) == Ok::<
            CommandView,
            (AddressesView, CliErrorView),
        >(CommandView::Resync { target, full: false }),
        spec_parse_command(seq!["resync"@, "--target"@, target, "--full"@]) == Ok::<
            CommandView,
            (AddressesView, CliErrorView),
        >(CommandView::Resync { target, full: true }),
{
    reveal_strlit("resync");
    reveal_strlit("secondary");
    reveal_strlit("primary");
    reveal_strlit("demo");
    reveal_strlit("write");
    reveal_strlit("read");
    reveal_strlit("--target");
    reveal_strlit("target");
    reveal_strlit("--full");
    reveal_strlit("full");
    assert("resync"@ != "secondary"@) by {
        assert("resync"@.len() != "secondary"@.len());
    }
    assert("resync"@ != "primary"@) by {
        assert("resync"@.len() != "primary"@.len());
    }
    assert("resync"@ != "demo"@) by {
        assert("resync"@.len() != "demo"@.len());
    }
    assert("target"@ =~= "--target"@.skip(2));
    assert("full"@ =~= "--full"@.skip(2));
    assert("full"@ =~= full_flag());
    assert("target"@ != full_flag()) by {
        assert("target"@.len() != full_flag().len());
    }
    let empty = FlagsView { values: Seq::empty(), bools: Seq::empty() };
    let one = seq!["--target"@, target];
    let two = seq!["--target"@, target, "--full"@];
    assert(seq!["resync"@, "--target"@, target].skip(1) =~= one);
    assert(seq!["resync"@, "--target"@, target, "--full"@].skip(1) =~= two);
    let f1 = FlagsView { values: seq![("target"@, target)], bools: Seq::empty() };
    assert(strip_dashes(one[0]) == Some("target"@));
    assert(empty.values.push(("target"@, target)) =~= f1.values);
    assert(parse_flags_from(one, 0, empty) == parse_flags_from(one, 2, f1));
    assert(spec_parse_flags(one) == Ok::<FlagsView, CliErrorView>(f1));
    assert(flag_value(f1.values, "target"@) == Some(target));
    lemma_resync_full_only_with_switch(f1, target);
    assert(!f1.bools.contains("full"@));
    let f2 = FlagsView { values: seq![("target"@, target)], bools: seq![full_flag()] };
    assert(strip_dashes(two[0]) == Some("target"@));
    assert(strip_dashes(two[2]) == Some(full_flag()));
    assert(parse_flags_from(two, 0, empty) == parse_flags_from(two, 2, f1));
    assert(f1.bools.push(full_flag()) =~= f2.bools);
    assert(parse_flags_from(two, 2, f1) == parse_flags_from(two, 3, f2));
    assert(spec_parse_flags(two) == Ok::<FlagsView, CliErrorView>(f2));
    assert(flag_value(f2.values, "target"@) == Some(target));
    lemma_resync_full_only_with_switch(f2, target);
    assert(f2.bools[0] == "full"@);
}

/// The lowercase hex digit of a nibble.
pub open spec fn hex_char(n: u8) -> char {
    if n < 10 {
        (48 + n) as char
    } else {
        (87 + n) as char
    }
}

/// Two lowercase hex digits per byte, high nibble first.
pub open spec fn hex_text(bytes: Seq<u8>) -> Seq<char>
    decreases bytes.len(),
{
    if bytes.len() == 0 {
        Seq::empty()
    } else {
        hex_text(bytes.drop_last()) + seq![hex_char(bytes.last() >> 4u8), hex_char(bytes.last() & 0xfu8)]
    }
}

fn hex_digit(n: u8) -> (d: &'static str)
    requires
        n < 16,
    ensures
        d@ == seq![hex_char(n)],
{
    proof {
        reveal_strlit("0");
        reveal_strlit("1");
        reveal_strlit("2");
        reveal_strlit("3");
        reveal_strlit("4");
        reveal_strlit("5");
        reveal_strlit("6");
        reveal_strlit("7");
        reveal_strlit("8");
        reveal_strlit("9");
        reveal_strlit("a");
        reveal_strlit("b");
        reveal_strlit("c");
        reveal_strlit("d");
        reveal_strlit("e");
        reveal_strlit("f");
    }
    let d = match n {
        0 => "0",
        1 => "1",
        2 => "2",
        3 => "3",
        4 => "4",
        5 => "5",
        6 => "6",
        7 => "7",
        8 => "8",
        9 => "9",
        10 => "a",
        11 => "b",
        12 => "c",
        13 => "d",
        14 => "e",
        _ => "f",
    };
    assert(d@ =~= seq![hex_char(n)]);
    d
}

/// The bytes as lowercase hex, two digits per byte.
pub fn hex(bytes: &[u8]) -> (text: String)
    ensures
        text@ == hex_text(bytes@),
{
    let mut out = String::new();
    let n = bytes.len();
    let mut i: usize = 0;
    while i < n
        invariant
            n == bytes@.len(),
            i <= n,
            out@ == hex_text(bytes@.subrange(0, i as int)),
        decreases n - i,
    {
        let b = bytes[i];
        assert(b >> 4u8 < 16u8 && b & 0xfu8 < 16u8) by (bit_vector);
        out.append(hex_digit(b >> 4u8));
        out.append(hex_digit(b & 0xfu8));
        i = i + 1;
        proof {
            let s = bytes@.subrange(0, i as int);
            assert(s.drop_last() =~= bytes@.subrange(0, i - 1));
            assert(out@ =~= hex_text(s));
        }
    }
    assert(bytes@.subrange(0, n as int) =~= bytes@);
    out
}

} // verus!
