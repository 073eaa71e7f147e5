//! The command line: each argument is an option or a file pattern, and the
//! options, taken in order, make up the run's settings.

use vstd::prelude::*;

verus! {

/// Which correlator aligns the sources.
#[derive(Debug, Clone, Copy, PartialEq, Eq, Structural)]
pub enum CorrelatorKind {
    /// No alignment at all.
    Off,
    /// Time-domain cross-correlation.
    Simple,
    /// Generalized cross-correlation with phase transform.
    GccPhat,
}

/// The settings of a run. Decibel and frequency values are kept as the text
/// given on the command line, `None` where the default applies.
#[derive(Debug, PartialEq)]
pub struct Options {
    pub normalize_db: Option<String>,
    pub normalize: bool,
    pub allow_resample: bool,
    pub max_shift: usize,
    pub correlator: CorrelatorKind,
    pub min_freq: Option<String>,
    pub max_freq: Option<String>,
    pub fade_samples: usize,
    pub anonymize: bool,
    pub debug: bool,
    pub files: Vec<String>,
}

/// The default number of samples of a crossfade.
pub const DEFAULT_FADE_SAMPLES: usize = 128;

/// `Options` with every text as a sequence of characters.
pub struct OptionsModel {
    pub normalize_db: Option<Seq<char>>,
    pub normalize: bool,
    pub allow_resample: bool,
    pub max_shift: usize,
    pub correlator: CorrelatorKind,
    pub min_freq: Option<Seq<char>>,
    pub max_freq: Option<Seq<char>>,
    pub fade_samples: usize,
    pub anonymize: bool,
    pub debug: bool,
    pub files: Seq<Seq<char>>,
}

pub open spec fn text_of(s: Option<String>) -> Option<Seq<char>> {
    match s {
        Some(t) => Some(t@),
        None => None,
    }
}

impl View for Options {
    type V = OptionsModel;

    open spec fn view(&self) -> OptionsModel {
        OptionsModel {
            normalize_db: text_of(self.normalize_db),
            normalize: self.normalize,
            allow_resample: self.allow_resample,
            max_shift: self.max_shift,
            correlator: self.correlator,
            min_freq: text_of(self.min_freq),
            max_freq: text_of(self.max_freq),
            fade_samples: self.fade_samples,
            anonymize: self.anonymize,
            debug: self.debug,
            files: self.files@.map_values(|f: String| f@),
        }
    }
}

/// The settings of a run that names no option.
pub open spec fn default_options() -> OptionsModel {
    OptionsModel {
        normalize_db: None,
        normalize: true,
        allow_resample: false,
        max_shift: 0,
        correlator: CorrelatorKind::GccPhat,
        min_freq: None,
        max_freq: None,
        fade_samples: DEFAULT_FADE_SAMPLES,
        anonymize: false,
        debug: false,
        files: Seq::empty(),
    }
}

impl Default for Options {
    fn default() -> (o: Self)
        ensures
            o@ == default_options(),
    {
        let o = Options {
            normalize_db: None,
            normalize: true,
            allow_resample: false,
            max_shift: 0,
            correlator: CorrelatorKind::GccPhat,
            min_freq: None,
            max_freq: None,
            fade_samples: DEFAULT_FADE_SAMPLES,
            anonymize: false,
            debug: false,
            files: Vec::new(),
        };
        assert(o@.files =~= Seq::<Seq<char>>::empty());
        o
    }
}

/// `c` is an ASCII decimal digit.
pub open spec fn is_digit(c: char) -> bool {
    '0' <= c <= '9'
}

/// The number that a sequence of decimal digits writes.
pub open spec fn digits_value(s: Seq<char>) -> nat
    decreases s.len(),
{
    if s.len() == 0 {
        0
    } else {
        digits_value(s.drop_last()) * 10 + (s.last() as nat - '0' as nat) as nat
    }
}

/// The digits of a count: the text after an optional leading `+`.
pub open spec fn unsigned_digits(s: Seq<char>) -> Seq<char> {
    if s.len() > 0 && s[0] == '+' { s.skip(1) } else { s }
}

/// A decimal count as the command line takes it: an optional `+`, then one
/// or more digits, of a value that fits in `usize`.
pub open spec fn spec_parse_count(s: Seq<char>) -> Option<usize> {
    let digits = unsigned_digits(s);
    if digits.len() > 0 && (forall|i: int| 0 <= i < digits.len() ==> is_digit(#[trigger] digits[i]))
        && digits_value(digits) <= usize::MAX {
        Some(digits_value(digits) as usize)
    } else {
        None
    }
}

proof fn lemma_digits_prefix_le(s: Seq<char>, k: int)
    requires
        0 <= k <= s.len(),
        forall|i: int| 0 <= i < s.len() ==> is_digit(#[trigger] s[i]),
    ensures
        digits_value(s.take(k)) <= digits_value(s),
    decreases s.len() - k,
{
    if k < s.len() {
        lemma_digits_prefix_le(s, k + 1);
        assert(s.take(k + 1).drop_last() =~= s.take(k));
    } else {
        assert(s.take(k) =~= s);
    }
}

/// Parse a decimal count: an optional `+`, then one or more digits, of a
/// value that fits in `usize`.
pub fn parse_count(s: &str) -> (r: Option<usize>)
    ensures
        r == spec_parse_count(s@),
{
    let len = s.unicode_len();
    let mut start: usize = 0;
    if len > 0 && s.get_char(0) == '+' {
        start = 1;
    }
    let ghost digits = unsigned_digits(s@);
    assert(digits =~= s@.skip(start as int));
    if start >= len {
        return None;
    }
    let mut value: usize = 0;
    let mut i: usize = start;
    while i < len
        invariant
            start <= i <= len,
            len == s@.len(),
            digits =~= s@.skip(start as int),
            digits == unsigned_digits(s@),
            forall|j: int| 0 <= j < i - start ==> is_digit(#[trigger] digits[j]),
            value == digits_value(digits.take(i - start)),
        decreases len - i,
    {
        let c = s.get_char(i);
        if !('0' <= c && c <= '9') {
            assert(!is_digit(digits[i - start]));
            return None;
        }
        let d: usize = (c as u32 - '0' as u32) as usize;
        assert(digits.take(i - start + 1).drop_last() =~= digits.take(i - start));
        if value > (usize::MAX - d) / 10 {
            proof {
                assert(value * 10 + d > usize::MAX) by (nonlinear_arith)
                    requires value > (usize::MAX - d) / 10, d <= 9;
                assert(digits_value(digits.take(i - start + 1)) > usize::MAX);
                if forall|k: int| 0 <= k < digits.len() ==> is_digit(#[trigger] digits[k]) {
                    lemma_digits_prefix_le(digits, i - start + 1);
                }
            }
            return None;
        }
        assert(value * 10 + d <= usize::MAX) by (nonlinear_arith)
            requires value <= (usize::MAX - d) / 10, d <= 9;
        value = value * 10 + d;
        i = i + 1;
    }
    assert(digits.take(len - start) =~= digits);
    Some(value)
}

/// Whether two texts are the same.
fn same_text(a: &str, b: &str) -> (r: bool)
    ensures
        r == (a@ == b@),
{
    let n = a.unicode_len();
    if n != b.unicode_len() {
        return false;
    }
    let mut i: usize = 0;
    while i < n
        invariant
            n == a@.len(),
            n == b@.len(),
            i <= n,
            a@.take(i as int) == b@.take(i as int),
        decreases n - i,
    {
        if a.get_char(i) != b.get_char(i) {
            assert(a@[i as int] != b@[i as int]);
            return false;
        }
        i = i + 1;
        assert(a@.take(i as int) =~= a@.take(i - 1).push(a@[i - 1]));
        assert(b@.take(i as int) =~= b@.take(i - 1).push(b@[i - 1]));
    }
    assert(a@ =~= a@.take(n as int));
    assert(b@ =~= b@.take(n as int));
    true
}

/// Whether `s` starts with `prefix`.
fn has_prefix(s: &str, prefix: &str) -> (r: bool)
    ensures
        r == prefix@.is_prefix_of(s@),
{
    let n = prefix.unicode_len();
    if n > s.unicode_len() {
        return false;
    }
    let mut i: usize = 0;
    while i < n
        invariant
            n == prefix@.len(),
            n <= s@.len(),
            i <= n,
            prefix@.take(i as int) == s@.take(i as int),
        decreases n - i,
    {
        if s.get_char(i) != prefix.get_char(i) {
            assert(s@.subrange(0, n as int)[i as int] != prefix@[i as int]);
            return false;
        }
        i = i + 1;
        assert(prefix@.take(i as int) =~= prefix@.take(i - 1).push(prefix@[i - 1]));
        assert(s@.take(i as int) =~= s@.take(i - 1).push(s@[i - 1]));
    }
    assert(prefix@ =~= s@.subrange(0, n as int));
    true
}

/// The text of `s` after its first `k` characters.
fn text_after(s: &str, k: usize) -> (r: String)
    requires
        k <= s@.len(),
    ensures
        r@ == s@.skip(k as int),
{
    let rest = s.substring_char(k, s.unicode_len());
    rest.to_owned()
}

/// One command line argument, recognized.
#[derive(Debug, PartialEq)]
pub enum Arg {
    Help,
    Version,
    NoNormalisation,
    AllowResample,
    Anonymize,
    Debug,
    NormalizeDb(String),
    MaxShift(usize),
    Correlator(CorrelatorKind),
    MinFreq(String),
    MaxFreq(String),
    FadeSamples(usize),
    File(String),
}

/// `Arg` with every text as a sequence of characters.
pub enum ArgModel {
    Help,
    Version,
    NoNormalisation,
    AllowResample,
    Anonymize,
    Debug,
    NormalizeDb(Seq<char>),
    MaxShift(usize),
    Correlator(CorrelatorKind),
    MinFreq(Seq<char>),
    MaxFreq(Seq<char>),
    FadeSamples(usize),
    File(Seq<char>),
}

impl View for Arg {
    type V = ArgModel;

    open spec fn view(&self) -> ArgModel {
        match self {
            Arg::Help => ArgModel::Help,
            Arg::Version => ArgModel::Version,
            Arg::NoNormalisation => ArgModel::NoNormalisation,
            Arg::AllowResample => ArgModel::AllowResample,
            Arg::Anonymize => ArgModel::Anonymize,
            Arg::Debug => ArgModel::Debug,
            Arg::NormalizeDb(v) => ArgModel::NormalizeDb(v@),
            Arg::MaxShift(n) => ArgModel::MaxShift(*n),
            Arg::Correlator(k) => ArgModel::Correlator(*k),
            Arg::MinFreq(v) => ArgModel::MinFreq(v@),
            Arg::MaxFreq(v) => ArgModel::MaxFreq(v@),
            Arg::FadeSamples(n) => ArgModel::FadeSamples(*n),
            Arg::File(f) => ArgModel::File(f@),
        }
    }
}

/// Why the command line was refused.
#[derive(Debug, PartialEq)]
pub enum ArgError {
    /// An argument that starts with `-` and is no known option.
    UnknownOption(String),
    /// A known option with a value it does not take: the option, the value.
    InvalidValue(String, String),
}

/// `ArgError` with every text as a sequence of characters.
pub enum ArgErrorModel {
    UnknownOption(Seq<char>),
    InvalidValue(Seq<char>, Seq<char>),
}

impl View for ArgError {
    type V = ArgErrorModel;

    open spec fn view(&self) -> ArgErrorModel {
        match self {
            ArgError::UnknownOption(a) => ArgErrorModel::UnknownOption(a@),
            ArgError::InvalidValue(o, v) => ArgErrorModel::InvalidValue(o@, v@),
        }
    }
}

/// The value part of `a`, an option of the form `name=value`.
pub open spec fn value_after(a: Seq<char>, name_eq: Seq<char>) -> Seq<char> {
    a.skip(name_eq.len() as int)
}

/// The correlator that a `--correlator=` value names.
pub open spec fn spec_correlator_named(v: Seq<char>) -> Option<CorrelatorKind> {
    if v == "simple"@ {
        Some(CorrelatorKind::Simple)
    } else if v == "gccphat"@ {
        Some(CorrelatorKind::GccPhat)
    } else if v == "none"@ {
        Some(CorrelatorKind::Off)
    } else {
        None
    }
}

/// A count option's argument, or the error for its value.
pub open spec fn count_arg(
    a: Seq<char>,
    name_eq: Seq<char>,
    name: Seq<char>,
    make: spec_fn(usize) -> ArgModel,
) -> Result<ArgModel, ArgErrorModel> {
    match spec_parse_count(value_after(a, name_eq)) {
        Some(n) => Ok(make(n)),
        None => Err(ArgErrorModel::InvalidValue(name, value_after(a, name_eq))),
    }
}

/// What one argument means: a known flag, a known option with its value,
/// an unknown option (anything else that starts with `-`), or a file
/// pattern.
pub open spec fn spec_classify(a: Seq<char>) -> Result<ArgModel, ArgErrorModel> {
    if a == "-h"@ || a == "--help"@ {
        Ok(ArgModel::Help)
    } else if a == "-V"@ || a == "--version"@ {
        Ok(ArgModel::Version)
    } else if a == "--no-normalisation"@ {
        Ok(ArgModel::NoNormalisation)
    } else if a == "--allow-resample"@ {
        Ok(ArgModel::AllowResample)
    } else if a == "--anonymize"@ {
        Ok(ArgModel::Anonymize)
    } else if a == "--debug"@ {
        Ok(ArgModel::Debug)
    } else if "--normalize_db="@.is_prefix_of(a) {
        Ok(ArgModel::NormalizeDb(value_after(a, "--normalize_db="@)))
    } else if "--maxshift="@.is_prefix_of(a) {
        count_arg(a, "--maxshift="@, "--maxshift"@, |n: usize| ArgModel::MaxShift(n))
    } else if "--correlator="@.is_prefix_of(a) {
        match spec_correlator_named(value_after(a, "--correlator="@)) {
            Some(k) => Ok(ArgModel::Correlator(k)),
            None => Err(ArgErrorModel::InvalidValue("--correlator"@, value_after(a, "--correlator="@))),
        }
    } else if "--min-freq="@.is_prefix_of(a) {
        Ok(ArgModel::MinFreq(value_after(a, "--min-freq="@)))
    } else if "--max-freq="@.is_prefix_of(a) {
        Ok(ArgModel::MaxFreq(value_after(a, "--max-freq="@)))
    } else if "--fade-samples="@.is_prefix_of(a) {
        count_arg(a, "--fade-samples="@, "--fade-samples"@, |n: usize| ArgModel::FadeSamples(n))
    } else if a.len() > 0 && a[0] == '-' {
        Err(ArgErrorModel::UnknownOption(a))
    } else {
        Ok(ArgModel::File(a))
    }
}

/// The value of `a` after `name_eq`, as a count.
fn count_value(a: &str, name_eq: &str, name: &str) -> (r: Result<usize, ArgError>)
    requires
        name_eq@.is_prefix_of(a@),
    ensures
        match r {
            Ok(n) => spec_parse_count(value_after(a@, name_eq@)) == Some(n),
            Err(e) => spec_parse_count(value_after(a@, name_eq@)) is None
                && e@ == ArgErrorModel::InvalidValue(name@, value_after(a@, name_eq@)),
        },
{
    let value = text_after(a, name_eq.unicode_len());
    match parse_count(value.as_str()) {
        Some(n) => Ok(n),
        None => Err(ArgError::InvalidValue(name.to_owned(), value)),
    }
}

/// Recognize one command line argument.
pub fn classify_arg(a: &str) -> (r: Result<Arg, ArgError>)
    ensures
        match r {
            Ok(arg) => spec_classify(a@) == Ok::<ArgModel, ArgErrorModel>(arg@),
            Err(e) => spec_classify(a@) == Err::<ArgModel, ArgErrorModel>(e@),
        },
{
    if same_text(a, "-h") || same_text(a, "--help") {
        Ok(Arg::Help)
    } else if same_text(a, "-V") || same_text(a, "--version") {
        Ok(Arg::Version)
    } else if same_text(a, "--no-normalisation") {
        Ok(Arg::NoNormalisation)
    } else if same_text(a, "--allow-resample") {
        Ok(Arg::AllowResample)
    } else if same_text(a, "--anonymize") {
        Ok(Arg::Anonymize)
    } else if same_text(a, "--debug") {
        Ok(Arg::Debug)
    } else if has_prefix(a, "--normalize_db=") {
        Ok(Arg::NormalizeDb(text_after(a, "--normalize_db=".unicode_len())))
    } else if has_prefix(a, "--maxshift=") {
        match count_value(a, "--maxshift=", "--maxshift") {
            Ok(n) => Ok(Arg::MaxShift(n)),
            Err(e) => Err(e),
        }
    } else if has_prefix(a, "--correlator=") {
        let value = text_after(a, "--correlator=".unicode_len());
        if same_text(value.as_str(), "simple") {
            Ok(Arg::Correlator(CorrelatorKind::Simple))
        } else if same_text(value.as_str(), "gccphat") {
            Ok(Arg::Correlator(CorrelatorKind::GccPhat))
        } else if same_text(value.as_str(), "none") {
            Ok(Arg::Correlator(CorrelatorKind::Off))
        } else {
            Err(ArgError::InvalidValue("--correlator".to_owned(), value))
        }
    } else if has_prefix(a, "--min-freq=") {
        Ok(Arg::MinFreq(text_after(a, "--min-freq=".unicode_len())))
    } else if has_prefix(a, "--max-freq=") {
        Ok(Arg::MaxFreq(text_after(a, "--max-freq=".unicode_len())))
    } else if has_prefix(a, "--fade-samples=") {
        match count_value(a, "--fade-samples=", "--fade-samples") {
            Ok(n) => Ok(Arg::FadeSamples(n)),
            Err(e) => Err(e),
        }
    } else if a.unicode_len() > 0 && a.get_char(0) == '-' {
        Err(ArgError::UnknownOption(a.to_owned()))
    } else {
        Ok(Arg::File(a.to_owned()))
    }
}

/// What the command line asks for.
#[derive(Debug, PartialEq)]
pub enum Command {
    /// Compare the files with these settings.
    Run(Options),
    /// Print the usage and exit.
    Help,
    /// Print the version and exit.
    Version,
}

/// `Command` with every text as a sequence of characters.
pub enum CommandModel {
    Run(OptionsModel),
    Help,
    Version,
}

impl View for Command {
    type V = CommandModel;

    open spec fn view(&self) -> CommandModel {
        match self {
            Command::Run(o) => CommandModel::Run(o@),
            Command::Help => CommandModel::Help,
            Command::Version => CommandModel::Version,
        }
    }
}

/// The settings after one more recognized argument (neither help nor
/// version): a later value of an option replaces an earlier one, and file
/// patterns are kept in order.
pub open spec fn spec_apply(o: OptionsModel, arg: ArgModel) -> OptionsModel {
    match arg {
        ArgModel::NoNormalisation => OptionsModel { normalize: false, ..o },
        ArgModel::AllowResample => OptionsModel { allow_resample: true, ..o },
        ArgModel::Anonymize => OptionsModel { anonymize: true, ..o },
        ArgModel::Debug => OptionsModel { debug: true, ..o },
        ArgModel::NormalizeDb(v) => OptionsModel { normalize_db: Some(v), ..o },
        ArgModel::MaxShift(n) => OptionsModel { max_shift: n, ..o },
        ArgModel::Correlator(k) => OptionsModel { correlator: k, ..o },
        ArgModel::MinFreq(v) => OptionsModel { min_freq: Some(v), ..o },
        ArgModel::MaxFreq(v) => OptionsModel { max_freq: Some(v), ..o },
        ArgModel::FadeSamples(n) => OptionsModel { fade_samples: n, ..o },
        ArgModel::File(f) => OptionsModel { files: o.files.push(f), ..o },
        _ => o,
    }
}

/// Reading the arguments from left to right, starting from the settings
/// `o`: the first refused argument is the error, the first help or version
/// request is the answer, and otherwise the run takes the settings that all
/// arguments together give.
pub open spec fn spec_parse_from(args: Seq<Seq<char>>, o: OptionsModel) -> Result<CommandModel, ArgErrorModel>
    decreases args.len(),
{
    if args.len() == 0 {
        Ok(CommandModel::Run(o))
    } else {
        match spec_classify(args[0]) {
            Err(e) => Err(e),
            Ok(ArgModel::Help) => Ok(CommandModel::Help),
            Ok(ArgModel::Version) => Ok(CommandModel::Version),
            Ok(arg) => spec_parse_from(args.drop_first(), spec_apply(o, arg)),
        }
    }
}

/// What a whole command line means.
pub open spec fn spec_parse(args: Seq<Seq<char>>) -> Result<CommandModel, ArgErrorModel> {
    spec_parse_from(args, default_options())
}

/// The model of a parse result.
pub open spec fn parsed_view(r: Result<Command, ArgError>) -> Result<CommandModel, ArgErrorModel> {
    match r {
        Ok(c) => Ok(c@),
        Err(e) => Err(e@),
    }
}

/// Read the command line (the arguments after the program name).
pub fn parse_args(args: &Vec<String>) -> (r: Result<Command, ArgError>)
    ensures
        parsed_view(r) == spec_parse(args@.map_values(|a: String| a@)),
{
    let ghost all = args@.map_values(|a: String| a@);
    let mut opts = Options::default();
    let mut i: usize = 0;
    assert(all.skip(0) =~= all);
    while i < args.len()
        invariant
            i <= args@.len(),
            all == args@.map_values(|a: String| a@),
            spec_parse(all) == spec_parse_from(all.skip(i as int), opts@),
        decreases args@.len() - i,
    {
        let ghost before = opts@;
        assert(all.skip(i as int).drop_first() =~= all.skip(i + 1));
        assert(all.skip(i as int)[0] == args@[i as int]@);
        match classify_arg(args[i].as_str()) {
            Err(e) => {
                return Err(e);
            },
            Ok(Arg::Help) => {
                return Ok(Command::Help);
            },
            Ok(Arg::Version) => {
                return Ok(Command::Version);
            },
            Ok(Arg::NoNormalisation) => {
                opts.normalize = false;
            },
            Ok(Arg::AllowResample) => {
                opts.allow_resample = true;
            },
            Ok(Arg::Anonymize) => {
                opts.anonymize = true;
            },
            Ok(Arg::Debug) => {
                opts.debug = true;
            },
            Ok(Arg::NormalizeDb(v)) => {
                opts.normalize_db = Some(v);
            },
            Ok(Arg::MaxShift(n)) => {
                opts.max_shift = n;
            },
            Ok(Arg::Correlator(k)) => {
                opts.correlator = k;
            },
            Ok(Arg::MinFreq(v)) => {
                opts.min_freq = Some(v);
            },
            Ok(Arg::MaxFreq(v)) => {
                opts.max_freq = Some(v);
            },
            Ok(Arg::FadeSamples(n)) => {
                opts.fade_samples = n;
            },
            Ok(Arg::File(f)) => {
                opts.files.push(f);
                assert(opts@.files =~= before.files.push(f@));
            },
        }
        assert(opts@ == spec_apply(before, spec_classify(args@[i as int]@)->Ok_0));
        i = i + 1;
    }
    assert(all.skip(i as int) =~= Seq::<Seq<char>>::empty());
    Ok(Command::Run(opts))
}

/// A pattern with every backslash turned into a slash.
pub open spec fn spec_glob_pattern(pattern: Seq<char>) -> Seq<char> {
    pattern.map_values(|c: char| if c == '\\' { '/' } else { c })
}

/// The pattern handed to the file system search: backslashes (Windows path
/// separators) become slashes.
pub fn glob_pattern(pattern: &str) -> (r: String)
    ensures
        r@ == spec_glob_pattern(pattern@),
{
    let n = pattern.unicode_len();
    let mut out = String::new();
    let mut seg_start: usize = 0;
    let mut i: usize = 0;
    while i < n
        invariant
            n == pattern@.len(),
            seg_start <= i <= n,
            out@ == spec_glob_pattern(pattern@.take(seg_start as int)),
            forall|j: int| seg_start <= j < i ==> pattern@[j] != '\\',
        decreases n - i,
    {
        if pattern.get_char(i) == '\\' {
            let seg = pattern.substring_char(seg_start, i);
            out.append(seg);
            out.append("/");
            proof {
                reveal_strlit("/");
                let lhs = spec_glob_pattern(pattern@.take(i + 1));
                let rhs = spec_glob_pattern(pattern@.take(seg_start as int))
                    + pattern@.subrange(seg_start as int, i as int) + "/"@;
                assert(lhs.len() == rhs.len());
                assert forall|j: int| 0 <= j < lhs.len() implies lhs[j] == rhs[j] by {
                    if j >= seg_start && j < i {
                        assert(pattern@[j] != '\\');
                    }
                }
                assert(lhs =~= rhs);
            }
            seg_start = i + 1;
        }
        i = i + 1;
    }
    let seg = pattern.substring_char(seg_start, n);
    out.append(seg);
    proof {
        let lhs = spec_glob_pattern(pattern@);
        let rhs = spec_glob_pattern(pattern@.take(seg_start as int))
            + pattern@.subrange(seg_start as int, n as int);
        assert(lhs.len() == rhs.len());
        assert forall|j: int| 0 <= j < lhs.len() implies lhs[j] == rhs[j] by {
            if j >= seg_start {
                assert(pattern@[j] != '\\');
            }
        }
        assert(lhs =~= rhs);
    }
    out
}

/// The texts of a list of strings.
pub open spec fn texts(v: Seq<String>) -> Seq<Seq<char>> {
    v.map_values(|p: String| p@)
}

/// The texts of what the file system matched, if anything.
pub open spec fn found_texts(found: Option<Vec<String>>) -> Option<Seq<Seq<char>>> {
    match found {
        Some(m) => Some(texts(m@)),
        None => None,
    }
}

/// The files that a pattern names: what the file system matched, or the
/// pattern itself, as a literal path, when it matched nothing or is no
/// valid pattern (`found` is `None`).
pub open spec fn spec_resolved(pattern: Seq<char>, found: Option<Seq<Seq<char>>>) -> Seq<Seq<char>> {
    match found {
        Some(m) => if m.len() > 0 { m } else { seq![pattern] },
        None => seq![pattern],
    }
}

/// The files that a pattern names, given what the file system matched for
/// it (`None` for a pattern that is not valid).
pub fn resolved_paths(pattern: &String, found: Option<Vec<String>>) -> (paths: Vec<String>)
    ensures
        texts(paths@) == spec_resolved(pattern@, found_texts(found)),
{
    let literal = if let Some(m) = &found { m.len() == 0 } else { true };
    if literal {
        let mut paths: Vec<String> = Vec::new();
        paths.push(pattern.clone());
        assert(texts(paths@) =~= seq![pattern@]);
        paths
    } else {
        match found {
            Some(m) => m,
            None => Vec::new(),
        }
    }
}

/// An argument that does not start with `-`.
pub open spec fn names_file(a: Seq<char>) -> bool {
    !(a.len() > 0 && a[0] == '-')
}

proof fn lemma_no_dash_prefix(pre: Seq<char>, a: Seq<char>)
    requires
        pre.len() > 0,
        pre[0] == '-',
        a.len() > 0,
        a[0] != '-',
    ensures
        !pre.is_prefix_of(a),
{
    if pre.is_prefix_of(a) {
        assert(a.subrange(0, pre.len() as int)[0] == a[0]);
    }
}

proof fn lemma_classify_file(a: Seq<char>)
    ensures
        spec_classify(a) matches Ok(arg) ==> (arg is File <==> names_file(a)),
        spec_classify(a) matches Ok(ArgModel::File(f)) ==> f == a,
{
    reveal_strlit("-h");
    reveal_strlit("--help");
    reveal_strlit("-V");
    reveal_strlit("--version");
    reveal_strlit("--no-normalisation");
    reveal_strlit("--allow-resample");
    reveal_strlit("--anonymize");
    reveal_strlit("--debug");
    reveal_strlit("--normalize_db=");
    reveal_strlit("--maxshift=");
    reveal_strlit("--correlator=");
    reveal_strlit("--min-freq=");
    reveal_strlit("--max-freq=");
    reveal_strlit("--fade-samples=");
    if names_file(a) && a.len() > 0 {
        assert(a[0] != '-');
        assert(a != "-h"@ && a != "--help"@ && a != "-V"@ && a != "--version"@);
        assert(a != "--no-normalisation"@ && a != "--allow-resample"@);
        assert(a != "--anonymize"@ && a != "--debug"@);
        lemma_no_dash_prefix("--normalize_db="@, a);
        lemma_no_dash_prefix("--maxshift="@, a);
        lemma_no_dash_prefix("--correlator="@, a);
        lemma_no_dash_prefix("--min-freq="@, a);
        lemma_no_dash_prefix("--max-freq="@, a);
        lemma_no_dash_prefix("--fade-samples="@, a);
    }
}

proof fn lemma_files_from(args: Seq<Seq<char>>, o: OptionsModel)
    ensures
        spec_parse_from(args, o) matches Ok(CommandModel::Run(done)) ==> done.files == o.files
            + args.filter(|a: Seq<char>| names_file(a)),
    decreases args.len(),
{
    let p = |a: Seq<char>| names_file(a);
    if args.len() == 0 {
        reveal_with_fuel(Seq::filter, 1);
        assert(o.files + args.filter(p) =~= o.files);
    } else {
        let rest = args.drop_first();
        assert(args =~= seq![args[0]] + rest);
        rest.lemma_filter_prepend(args[0], p);
        lemma_classify_file(args[0]);
        match spec_classify(args[0]) {
            Ok(arg) => {
                if !(arg is Help) && !(arg is Version) {
                    let next = spec_apply(o, arg);
                    lemma_files_from(rest, next);
                    if names_file(args[0]) {
                        assert(next.files == o.files.push(args[0]));
                        assert(o.files.push(args[0]) + rest.filter(p) =~= o.files + (seq![args[0]]
                            + rest.filter(p)));
                    } else {
                        assert(next.files == o.files);
                        assert(Seq::<Seq<char>>::empty() + rest.filter(p) =~= rest.filter(p));
                    }
                }
            },
            Err(_) => {},
        }
    }
}

/// Every argument that does not start with `-` is a file pattern and no
/// argument that does is one: the files of a run are exactly those
/// arguments, in the order given.
pub proof fn lemma_files_are_plain_arguments(args: Seq<Seq<char>>)
    ensures
        spec_parse(args) matches Ok(CommandModel::Run(o)) ==> o.files == args.filter(
            |a: Seq<char>| names_file(a),
        ),
{
    lemma_files_from(args, default_options());
    assert(default_options().files + args.filter(|a: Seq<char>| names_file(a)) =~= args.filter(
        |a: Seq<char>| names_file(a),
    ));
}

/// Which argument each flag setting comes from: the flags are recognized by
/// their exact text, the options with a value by their prefix.
proof fn lemma_classify_sources(a: Seq<char>)
    ensures
        (spec_classify(a) matches Ok(ArgModel::NoNormalisation)) <==> a == "--no-normalisation"@,
        (spec_classify(a) matches Ok(ArgModel::AllowResample)) <==> a == "--allow-resample"@,
        (spec_classify(a) matches Ok(ArgModel::Anonymize)) <==> a == "--anonymize"@,
        (spec_classify(a) matches Ok(ArgModel::Debug)) <==> a == "--debug"@,
        (spec_classify(a) matches Ok(ArgModel::NormalizeDb(_))) ==> "--normalize_db="@.is_prefix_of(a),
        (spec_classify(a) matches Ok(ArgModel::MaxShift(_))) ==> "--maxshift="@.is_prefix_of(a),
        (spec_classify(a) matches Ok(ArgModel::Correlator(_))) ==> "--correlator="@.is_prefix_of(a),
        (spec_classify(a) matches Ok(ArgModel::MinFreq(_))) ==> "--min-freq="@.is_prefix_of(a),
        (spec_classify(a) matches Ok(ArgModel::MaxFreq(_))) ==> "--max-freq="@.is_prefix_of(a),
        (spec_classify(a) matches Ok(ArgModel::FadeSamples(_))) ==> "--fade-samples="@.is_prefix_of(a),
{
    reveal_strlit("-h");
    reveal_strlit("--help");
    reveal_strlit("-V");
    reveal_strlit("--version");
    reveal_strlit("--no-normalisation");
    reveal_strlit("--allow-resample");
    reveal_strlit("--anonymize");
    reveal_strlit("--debug");
}

/// The settings that arguments `args`, read from the settings `o`, end in.
proof fn lemma_settings_from(args: Seq<Seq<char>>, o: OptionsModel)
    ensures
        spec_parse_from(args, o) matches Ok(CommandModel::Run(d)) ==> {
            &&& d.normalize == (o.normalize && !args.contains("--no-normalisation"@))
            &&& d.allow_resample == (o.allow_resample || args.contains("--allow-resample"@))
            &&& d.anonymize == (o.anonymize || args.contains("--anonymize"@))
            &&& d.debug == (o.debug || args.contains("--debug"@))
            &&& (forall|i: int| 0 <= i < args.len() ==> !"--normalize_db="@.is_prefix_of(#[trigger] args[i]))
                ==> d.normalize_db == o.normalize_db
            &&& (forall|i: int| 0 <= i < args.len() ==> !"--maxshift="@.is_prefix_of(#[trigger] args[i]))
                ==> d.max_shift == o.max_shift
            &&& (forall|i: int| 0 <= i < args.len() ==> !"--correlator="@.is_prefix_of(#[trigger] args[i]))
                ==> d.correlator == o.correlator
            &&& (forall|i: int| 0 <= i < args.len() ==> !"--min-freq="@.is_prefix_of(#[trigger] args[i]))
                ==> d.min_freq == o.min_freq
            &&& (forall|i: int| 0 <= i < args.len() ==> !"--max-freq="@.is_prefix_of(#[trigger] args[i]))
                ==> d.max_freq == o.max_freq
            &&& (forall|i: int| 0 <= i < args.len() ==> !"--fade-samples="@.is_prefix_of(#[trigger] args[i]))
                ==> d.fade_samples == o.fade_samples
        },
    decreases args.len(),
{
    if args.len() > 0 {
        let a = args[0];
        let rest = args.drop_first();
        lemma_classify_sources(a);
        assert forall|x: Seq<char>| args.contains(x) <==> (a == x || rest.contains(x)) by {
            if args.contains(x) {
                let k = choose|k: int| 0 <= k < args.len() && args[k] == x;
                if k > 0 {
                    assert(rest[k - 1] == x);
                }
            }
            if rest.contains(x) {
                let k = choose|k: int| 0 <= k < rest.len() && rest[k] == x;
                assert(args[k + 1] == x);
            }
            if a == x {
                assert(args[0] == x);
            }
        }
        match spec_classify(a) {
            Ok(arg) => {
                if !(arg is Help) && !(arg is Version) {
                    lemma_settings_from(rest, spec_apply(o, arg));
                    assert forall|i: int| 0 <= i < rest.len() implies rest[i] == #[trigger] args[i + 1] by {}
                }
            },
            Err(_) => {},
        }
    }
}

/// Each option changes only the setting it names. In a run, normalization
/// is on exactly when no argument is `--no-normalisation`; resampling,
/// anonymous mode and debug output are on exactly when their flag is given;
/// and the decibel target, the shift limit, the correlator, the frequency
/// band and the crossfade length keep their defaults unless their option
/// is given.
pub proof fn lemma_each_option_sets_only_its_setting(args: Seq<Seq<char>>)
    ensures
        spec_parse(args) matches Ok(CommandModel::Run(d)) ==> {
            &&& d.normalize == !args.contains("--no-normalisation"@)
            &&& d.allow_resample == args.contains("--allow-resample"@)
            &&& d.anonymize == args.contains("--anonymize"@)
            &&& d.debug == args.contains("--debug"@)
            &&& (forall|i: int| 0 <= i < args.len() ==> !"--normalize_db="@.is_prefix_of(#[trigger] args[i]))
                ==> d.normalize_db is None
            &&& (forall|i: int| 0 <= i < args.len() ==> !"--maxshift="@.is_prefix_of(#[trigger] args[i]))
                ==> d.max_shift == 0
            &&& (forall|i: int| 0 <= i < args.len() ==> !"--correlator="@.is_prefix_of(#[trigger] args[i]))
                ==> d.correlator == CorrelatorKind::GccPhat
            &&& (forall|i: int| 0 <= i < args.len() ==> !"--min-freq="@.is_prefix_of(#[trigger] args[i]))
                ==> d.min_freq is None
            &&& (forall|i: int| 0 <= i < args.len() ==> !"--max-freq="@.is_prefix_of(#[trigger] args[i]))
                ==> d.max_freq is None
            &&& (forall|i: int| 0 <= i < args.len() ==> !"--fade-samples="@.is_prefix_of(#[trigger] args[i]))
                ==> d.fade_samples == 128
        },
{
    lemma_settings_from(args, default_options());
}

} // verus!
