//! The `llm` debugging subcommand: argument parsing, template and backend
//! selection, and the assembly of the final prompt.
use vstd::prelude::*;
use vstd::string::StringExecFns;
use crate::llm::{template_prompt, PromptTemplate};
use crate::text::{chars_of, lowercase, opt_text, str_eq_chars, string_of, to_lowercase, trim_chars, trim_ws};

verus! {

// ── Number syntax ────────────────────────────────────────────────────────────

/// `c` is an ASCII decimal digit.
pub open spec fn is_digit(c: char) -> bool {
    '0' <= c && c <= '9'
}

/// The value of a run of decimal digits (most significant first).
pub open spec fn digits_value(s: Seq<char>) -> nat
    decreases s.len(),
{
    if s.len() == 0 {
        0
    } else {
        digits_value(s.drop_last()) * 10 + (s.last() as nat - '0' as nat) as nat
    }
}

/// Every character of `s` is a decimal digit.
pub open spec fn all_digits(s: Seq<char>) -> bool {
    forall|i: int| 0 <= i < s.len() ==> is_digit(#[trigger] s[i])
}

/// What `str::parse::<u32>` yields: an optional `+`, then one or more
/// decimal digits whose value fits in 32 bits; anything else is refused.
pub open spec fn u32_of_text(s: Seq<char>) -> Option<u32> {
    let d = if s.len() > 0 && s[0] == '+' {
        s.drop_first()
    } else {
        s
    };
    if d.len() > 0 && all_digits(d) && digits_value(d) <= u32::MAX {
        Some(digits_value(d) as u32)
    } else {
        None
    }
}

/// States of the recogniser for the decimal part of a float literal.
#[derive(Clone, Copy, PartialEq, Eq, Structural, Debug)]
pub enum NumState {
    Start,
    IntDigits,
    DotOnly,
    Fraction,
    ExpMark,
    ExpSign,
    ExpDigits,
    Reject,
}

/// One step of the recogniser of
/// `Number ::= ( Digit+ | Digit+ '.' Digit* | Digit* '.' Digit+ ) Exp?`,
/// `Exp ::= ('e' | 'E') Sign? Digit+`.
pub open spec fn num_step(st: NumState, c: char) -> NumState {
    match st {
        NumState::Start => if is_digit(c) {
            NumState::IntDigits
        } else if c == '.' {
            NumState::DotOnly
        } else {
            NumState::Reject
        },
        NumState::IntDigits => if is_digit(c) {
            NumState::IntDigits
        } else if c == '.' {
            NumState::Fraction
        } else if c == 'e' || c == 'E' {
            NumState::ExpMark
        } else {
            NumState::Reject
        },
        NumState::DotOnly => if is_digit(c) {
            NumState::Fraction
        } else {
            NumState::Reject
        },
        NumState::Fraction => if is_digit(c) {
            NumState::Fraction
        } else if c == 'e' || c == 'E' {
            NumState::ExpMark
        } else {
            NumState::Reject
        },
        NumState::ExpMark => if c == '+' || c == '-' {
            NumState::ExpSign
        } else if is_digit(c) {
            NumState::ExpDigits
        } else {
            NumState::Reject
        },
        NumState::ExpSign => if is_digit(c) {
            NumState::ExpDigits
        } else {
            NumState::Reject
        },
        NumState::ExpDigits => if is_digit(c) {
            NumState::ExpDigits
        } else {
            NumState::Reject
        },
        NumState::Reject => NumState::Reject,
    }
}

/// The recogniser's state after reading all of `s`.
pub open spec fn num_state(s: Seq<char>) -> NumState
    decreases s.len(),
{
    if s.len() == 0 {
        NumState::Start
    } else {
        num_step(num_state(s.drop_last()), s.last())
    }
}

/// `s` is a `Number` of the float grammar.
pub open spec fn is_number_text(s: Seq<char>) -> bool {
    let st = num_state(s);
    st == NumState::IntDigits || st == NumState::Fraction || st == NumState::ExpDigits
}

/// `s` equals the word whose lower-case letters are `lower` and upper-case
/// letters are `upper`, letter by letter in either case.
pub open spec fn same_word_any_case(s: Seq<char>, lower: Seq<char>, upper: Seq<char>) -> bool {
    s.len() == lower.len() && s.len() == upper.len() && forall|i: int|
        0 <= i < s.len() ==> (#[trigger] s[i] == lower[i] || s[i] == upper[i])
}

/// The strings `str::parse::<f32>` accepts, as its documentation gives the
/// grammar: `Sign? ( 'inf' | 'infinity' | 'nan' | Number )`, the words in any
/// letter case.
pub open spec fn is_float_text(s: Seq<char>) -> bool {
    let b = if s.len() > 0 && (s[0] == '+' || s[0] == '-') {
        s.drop_first()
    } else {
        s
    };
    same_word_any_case(b, "inf"@, "INF"@) || same_word_any_case(b, "infinity"@, "INFINITY"@)
        || same_word_any_case(b, "nan"@, "NAN"@) || is_number_text(b)
}

/// Parse a decimal `u32` the way `str::parse::<u32>` does.
pub fn parse_u32_text(s: &str) -> (r: Option<u32>)
    ensures
        r == u32_of_text(s@),
{
    let v = chars_of(s);
    let start: usize = if v.len() > 0 && v[0] == '+' {
        1
    } else {
        0
    };
    let ghost d = if v@.len() > 0 && v@[0] == '+' {
        v@.drop_first()
    } else {
        v@
    };
    assert(d =~= v@.skip(start as int));
    if start == v.len() {
        return None;
    }
    let mut acc: u64 = 0;
    let mut big = false;
    let mut j: usize = start;
    while j < v.len()
        invariant
            start <= j <= v.len(),
            v@ == s@,
            d == (if s@.len() > 0 && s@[0] == '+' {
                s@.drop_first()
            } else {
                s@
            }),
            d =~= v@.skip(start as int),
            all_digits(v@.subrange(start as int, j as int)),
            !big ==> acc == digits_value(v@.subrange(start as int, j as int)) && acc <= u32::MAX,
            big ==> digits_value(v@.subrange(start as int, j as int)) > u32::MAX,
        decreases v.len() - j,
    {
        let c = v[j];
        if !('0' <= c && c <= '9') {
            assert(d[j - start] == c);
            assert(!is_digit(d[j - start]));
            return None;
        }
        let ghost prev = v@.subrange(start as int, j as int);
        let ghost next = v@.subrange(start as int, j + 1);
        assert(next.drop_last() =~= prev);
        assert(digits_value(next) == digits_value(prev) * 10 + (c as nat - '0' as nat));
        if !big {
            let dv: u64 = (c as u64) - ('0' as u64);
            let nv: u64 = acc * 10 + dv;
            if nv > 4294967295u64 {
                big = true;
            } else {
                acc = nv;
            }
        }
        assert(all_digits(next)) by {
            assert forall|i: int| 0 <= i < next.len() implies is_digit(#[trigger] next[i]) by {
                if i < prev.len() {
                    assert(next[i] == prev[i]);
                }
            }
        }
        j += 1;
    }
    assert(v@.subrange(start as int, v.len() as int) =~= d);
    if big {
        None
    } else {
        Some(acc as u32)
    }
}

/// Whether `v[from..]` is spelled `lower` in any letter case.
fn word_any_case(v: &Vec<char>, from: usize, lower: &str, upper: &str) -> (r: bool)
    requires
        from <= v.len(),
    ensures
        r == same_word_any_case(v@.skip(from as int), lower@, upper@),
{
    let lo = chars_of(lower);
    let up = chars_of(upper);
    let n = v.len() - from;
    if n != lo.len() || n != up.len() {
        return false;
    }
    let ghost w = v@.skip(from as int);
    let mut i: usize = 0;
    while i < n
        invariant
            n == lo.len(),
            n == up.len(),
            lo@ == lower@,
            up@ == upper@,
            from + n == v.len(),
            w =~= v@.skip(from as int),
            i <= n,
            forall|k: int| 0 <= k < i ==> (#[trigger] w[k] == lo@[k] || w[k] == up@[k]),
        decreases n - i,
    {
        let c = v[from + i];
        assert(w[i as int] == c);
        if c != lo[i] && c != up[i] {
            assert(!(w[i as int] == lo@[i as int] || w[i as int] == up@[i as int]));
            return false;
        }
        i += 1;
    }
    true
}

/// Whether `str::parse::<f32>` accepts `s` (its documented grammar).
pub fn is_float_literal(s: &str) -> (r: bool)
    ensures
        r == is_float_text(s@),
{
    let v = chars_of(s);
    let start: usize = if v.len() > 0 && (v[0] == '+' || v[0] == '-') {
        1
    } else {
        0
    };
    let ghost b = if v@.len() > 0 && (v@[0] == '+' || v@[0] == '-') {
        v@.drop_first()
    } else {
        v@
    };
    assert(b =~= v@.skip(start as int));
    if word_any_case(&v, start, "inf", "INF") || word_any_case(&v, start, "infinity", "INFINITY")
        || word_any_case(&v, start, "nan", "NAN") {
        return true;
    }
    let mut st = NumState::Start;
    let mut j: usize = start;
    while j < v.len()
        invariant
            start <= j <= v.len(),
            v@ == s@,
            st == num_state(v@.subrange(start as int, j as int)),
        decreases v.len() - j,
    {
        let c = v[j];
        assert(v@.subrange(start as int, j + 1).drop_last() =~= v@.subrange(start as int, j as int));
        let dig = '0' <= c && c <= '9';
        st = match st {
            NumState::Start => if dig {
                NumState::IntDigits
            } else if c == '.' {
                NumState::DotOnly
            } else {
                NumState::Reject
            },
            NumState::IntDigits => if dig {
                NumState::IntDigits
            } else if c == '.' {
                NumState::Fraction
            } else if c == 'e' || c == 'E' {
                NumState::ExpMark
            } else {
                NumState::Reject
            },
            NumState::DotOnly => if dig {
                NumState::Fraction
            } else {
                NumState::Reject
            },
            NumState::Fraction => if dig {
                NumState::Fraction
            } else if c == 'e' || c == 'E' {
                NumState::ExpMark
            } else {
                NumState::Reject
            },
            NumState::ExpMark => if c == '+' || c == '-' {
                NumState::ExpSign
            } else if dig {
                NumState::ExpDigits
            } else {
                NumState::Reject
            },
            NumState::ExpSign => if dig {
                NumState::ExpDigits
            } else {
                NumState::Reject
            },
            NumState::ExpDigits => if dig {
                NumState::ExpDigits
            } else {
                NumState::Reject
            },
            NumState::Reject => NumState::Reject,
        };
        j += 1;
    }
    assert(v@.subrange(start as int, v.len() as int) =~= b);
    st == NumState::IntDigits || st == NumState::Fraction || st == NumState::ExpDigits
}


// ── Arguments ────────────────────────────────────────────────────────────────

/// The options of the `llm` subcommand.
#[derive(Clone, Copy, PartialEq, Eq, Structural, Debug)]
pub enum Flag {
    Prompt,
    Context,
    Input,
    Template,
    Backend,
    Url,
    Model,
    Temperature,
    Tokens,
    System,
    Help,
    Unknown,
}

/// Which option an argument names (long and short spellings).
pub open spec fn flag_of(a: Seq<char>) -> Flag {
    if a == "--prompt"@ || a == "-p"@ {
        Flag::Prompt
    } else if a == "--context"@ || a == "-c"@ {
        Flag::Context
    } else if a == "--input"@ || a == "-i"@ {
        Flag::Input
    } else if a == "--template"@ || a == "-t"@ {
        Flag::Template
    } else if a == "--backend"@ || a == "-b"@ {
        Flag::Backend
    } else if a == "--url"@ || a == "-u"@ {
        Flag::Url
    } else if a == "--model"@ || a == "-m"@ {
        Flag::Model
    } else if a == "--temperature"@ {
        Flag::Temperature
    } else if a == "--tokens"@ || a == "--max-tokens"@ {
        Flag::Tokens
    } else if a == "--system"@ || a == "-s"@ {
        Flag::System
    } else if a == "--help"@ || a == "-h"@ {
        Flag::Help
    } else {
        Flag::Unknown
    }
}

/// The name an option goes by in error messages.
pub open spec fn flag_name(f: Flag) -> Seq<char> {
    match f {
        Flag::Prompt => "--prompt"@,
        Flag::Context => "--context"@,
        Flag::Input => "--input"@,
        Flag::Template => "--template"@,
        Flag::Backend => "--backend"@,
        Flag::Url => "--url"@,
        Flag::Model => "--model"@,
        Flag::Temperature => "--temperature"@,
        Flag::Tokens => "--tokens"@,
        Flag::System => "--system"@,
        Flag::Help => "--help"@,
        Flag::Unknown => ""@,
    }
}

/// Parsed arguments of the `llm` subcommand.  The temperature is kept as the
/// text that was given, which is known to be a valid float literal.
#[derive(Debug)]
pub struct CliArgs {
    /// Prompt text; when absent it is read from stdin.
    pub prompt: Option<String>,
    /// Context block put before the prompt.
    pub context: Option<String>,
    /// User input used with a template.
    pub input: Option<String>,
    /// Template name (`continuation`, `expansion`, ...).
    pub template: Option<String>,
    /// Backend selector: `mock`, `api` or `local`.
    pub backend: String,
    /// API / server URL.
    pub url: Option<String>,
    /// Model name or path.
    pub model: Option<String>,
    /// Sampling temperature, as written.
    pub temperature: Option<String>,
    /// Maximum number of tokens to generate.
    pub max_tokens: Option<u32>,
    /// System prompt.
    pub system_prompt: Option<String>,
    /// `--help` was given: the help text is to be shown and nothing else done.
    pub help: bool,
}

/// The value of [`CliArgs`] with every text taken as its characters.
pub struct CliArgsView {
    pub prompt: Option<Seq<char>>,
    pub context: Option<Seq<char>>,
    pub input: Option<Seq<char>>,
    pub template: Option<Seq<char>>,
    pub backend: Seq<char>,
    pub url: Option<Seq<char>>,
    pub model: Option<Seq<char>>,
    pub temperature: Option<Seq<char>>,
    pub max_tokens: Option<u32>,
    pub system_prompt: Option<Seq<char>>,
    pub help: bool,
}

impl View for CliArgs {
    type V = CliArgsView;

    open spec fn view(&self) -> CliArgsView {
        CliArgsView {
            prompt: opt_text(self.prompt),
            context: opt_text(self.context),
            input: opt_text(self.input),
            template: opt_text(self.template),
            backend: self.backend@,
            url: opt_text(self.url),
            model: opt_text(self.model),
            temperature: opt_text(self.temperature),
            max_tokens: self.max_tokens,
            system_prompt: opt_text(self.system_prompt),
            help: self.help,
        }
    }
}

/// The arguments before any option is read: the mock backend and nothing else.
pub open spec fn default_args() -> CliArgsView {
    CliArgsView {
        prompt: None,
        context: None,
        input: None,
        template: None,
        backend: "mock"@,
        url: None,
        model: None,
        temperature: None,
        max_tokens: None,
        system_prompt: None,
        help: false,
    }
}

impl Default for CliArgs {
    fn default() -> (r: Self)
        ensures
            r@ == default_args(),
    {
        CliArgs {
            prompt: None,
            context: None,
            input: None,
            template: None,
            backend: String::from_str("mock"),
            url: None,
            model: None,
            temperature: None,
            max_tokens: None,
            system_prompt: None,
            help: false,
        }
    }
}

pub open spec fn missing_value_msg(flag: Seq<char>) -> Seq<char> {
    "参数 "@ + flag + " 需要一个值"@
}

pub open spec fn bad_float_msg(v: Seq<char>) -> Seq<char> {
    "--temperature: 无效的浮点数 \""@ + v + "\""@
}

pub open spec fn bad_int_msg(v: Seq<char>) -> Seq<char> {
    "--tokens: 无效的整数 \""@ + v + "\""@
}

pub open spec fn unknown_arg_msg(a: Seq<char>) -> Seq<char> {
    "未知参数: "@ + a + "，使用 --help 查看帮助"@
}

/// The arguments after option `f` took the value `v`.
pub open spec fn with_value(f: Flag, v: Seq<char>, a: CliArgsView) -> Result<CliArgsView, Seq<char>> {
    match f {
        Flag::Prompt => Ok(CliArgsView { prompt: Some(v), ..a }),
        Flag::Context => Ok(CliArgsView { context: Some(v), ..a }),
        Flag::Input => Ok(CliArgsView { input: Some(v), ..a }),
        Flag::Template => Ok(CliArgsView { template: Some(v), ..a }),
        Flag::Backend => Ok(CliArgsView { backend: v, ..a }),
        Flag::Url => Ok(CliArgsView { url: Some(v), ..a }),
        Flag::Model => Ok(CliArgsView { model: Some(v), ..a }),
        Flag::Temperature => if is_float_text(v) {
            Ok(CliArgsView { temperature: Some(v), ..a })
        } else {
            Err(bad_float_msg(v))
        },
        Flag::Tokens => match u32_of_text(v) {
            Some(n) => Ok(CliArgsView { max_tokens: Some(n), ..a }),
            None => Err(bad_int_msg(v)),
        },
        Flag::System => Ok(CliArgsView { system_prompt: Some(v), ..a }),
        _ => Ok(a),
    }
}

/// Reading the options from position `i` on, with `a` read so far: each
/// option takes the next argument as its value; `--help` stops the reading;
/// an unknown option, a missing value or a bad number is an error.
pub open spec fn parse_from(args: Seq<Seq<char>>, i: nat, a: CliArgsView) -> Result<CliArgsView, Seq<char>>
    decreases args.len() - i,
{
    if i >= args.len() {
        Ok(a)
    } else {
        let f = flag_of(args[i as int]);
        if f == Flag::Help {
            Ok(CliArgsView { help: true, ..a })
        } else if f == Flag::Unknown {
            Err(unknown_arg_msg(args[i as int]))
        } else if i + 1 >= args.len() {
            Err(missing_value_msg(flag_name(f)))
        } else {
            match with_value(f, args[i + 1int], a) {
                Ok(b) => parse_from(args, i + 2, b),
                Err(e) => Err(e),
            }
        }
    }
}

/// `s` is the documented short (or alternative) spelling of the option `l`.
pub open spec fn spelling_of(s: Seq<char>, l: Seq<char>) -> bool {
    ||| s == "-p"@ && l == "--prompt"@
    ||| s == "-c"@ && l == "--context"@
    ||| s == "-i"@ && l == "--input"@
    ||| s == "-t"@ && l == "--template"@
    ||| s == "-b"@ && l == "--backend"@
    ||| s == "-u"@ && l == "--url"@
    ||| s == "-m"@ && l == "--model"@
    ||| s == "-s"@ && l == "--system"@
    ||| s == "-h"@ && l == "--help"@
    ||| s == "--max-tokens"@ && l == "--tokens"@
}

proof fn lemma_option_spellings(s: Seq<char>, l: Seq<char>)
    requires
        spelling_of(s, l),
    ensures
        flag_of(s) == flag_of(l),
        flag_of(l) != Flag::Unknown,
{
    reveal_strlit("--prompt");
    reveal_strlit("-p");
    reveal_strlit("--context");
    reveal_strlit("-c");
    reveal_strlit("--input");
    reveal_strlit("-i");
    reveal_strlit("--template");
    reveal_strlit("-t");
    reveal_strlit("--backend");
    reveal_strlit("-b");
    reveal_strlit("--url");
    reveal_strlit("-u");
    reveal_strlit("--model");
    reveal_strlit("-m");
    reveal_strlit("--temperature");
    reveal_strlit("--tokens");
    reveal_strlit("--max-tokens");
    reveal_strlit("--system");
    reveal_strlit("-s");
    reveal_strlit("--help");
    reveal_strlit("-h");
    assert("-p"@[1] == 'p' && "-c"@[1] == 'c' && "-i"@[1] == 'i' && "-t"@[1] == 't');
    assert("-b"@[1] == 'b' && "-u"@[1] == 'u' && "-m"@[1] == 'm' && "-s"@[1] == 's');
    assert("-h"@[1] == 'h');
    assert("--prompt"@[2] == 'p' && "--tokens"@[2] == 't' && "--system"@[2] == 's');
    assert("--context"@[2] == 'c' && "--backend"@[2] == 'b');
    assert("--input"@[2] == 'i' && "--model"@[2] == 'm');
    assert("-p"@.len() == 2 && "--prompt"@.len() == 8 && "--temperature"@.len() == 13);
    assert("--context"@.len() == 9 && "--input"@.len() == 7 && "--template"@.len() == 10);
    assert("--backend"@.len() == 9 && "--url"@.len() == 5 && "--model"@.len() == 7);
    assert("--tokens"@.len() == 8 && "--max-tokens"@.len() == 12 && "--system"@.len() == 8);
    assert("--help"@.len() == 6);
    if s == "-p"@ && l == "--prompt"@ {
        assert(flag_of(s) == Flag::Prompt);
        assert(flag_of(l) == Flag::Prompt);
    } else if s == "-c"@ && l == "--context"@ {
        assert(flag_of(s) == Flag::Context);
        assert(flag_of(l) == Flag::Context);
    } else if s == "-i"@ && l == "--input"@ {
        assert(flag_of(s) == Flag::Input);
        assert(flag_of(l) == Flag::Input);
    } else if s == "-t"@ && l == "--template"@ {
        assert(flag_of(s) == Flag::Template);
        assert(flag_of(l) == Flag::Template);
    } else if s == "-b"@ && l == "--backend"@ {
        assert(flag_of(s) == Flag::Backend);
        assert(flag_of(l) == Flag::Backend);
    } else if s == "-u"@ && l == "--url"@ {
        assert(flag_of(s) == Flag::Url);
        assert(flag_of(l) == Flag::Url);
    } else if s == "-m"@ && l == "--model"@ {
        assert(flag_of(s) == Flag::Model);
        assert(flag_of(l) == Flag::Model);
    } else if s == "-s"@ && l == "--system"@ {
        assert(flag_of(s) == Flag::System);
        assert(flag_of(l) == Flag::System);
    } else if s == "-h"@ && l == "--help"@ {
        assert(flag_of(s) == Flag::Help);
        assert(flag_of(l) == Flag::Help);
    } else if s == "--max-tokens"@ && l == "--tokens"@ {
        assert(flag_of(s) == Flag::Tokens);
        assert(flag_of(l) == Flag::Tokens);
    }
}

/// Reading from position `i` on looks only at the arguments from `i` on.
proof fn lemma_parse_from_tail(x: Seq<Seq<char>>, y: Seq<Seq<char>>, i: nat, a: CliArgsView)
    requires
        x.len() == y.len(),
        forall|k: int| i <= k < x.len() ==> x[k] == y[k],
    ensures
        parse_from(x, i, a) == parse_from(y, i, a),
    decreases x.len() - i,
{
    if i < x.len() {
        assert(x[i as int] == y[i as int]);
        if i + 1 < x.len() {
            assert(x[i + 1int] == y[i + 1int]);
            match with_value(flag_of(x[i as int]), x[i + 1int], a) {
                Ok(b) => lemma_parse_from_tail(x, y, i + 2, b),
                Err(_) => {},
            }
        }
    }
}

/// Each documented short option (and `--max-tokens`) is read exactly as its
/// long form: a command line starting with it parses as the same command line
/// starting with the long form (so `-t NAME` sets the template to `NAME`).
pub proof fn lemma_short_option_as_long(
    s: Seq<char>,
    l: Seq<char>,
    rest: Seq<Seq<char>>,
    a: CliArgsView,
)
    requires
        spelling_of(s, l),
    ensures
        parse_from(seq![s] + rest, 0, a) == parse_from(seq![l] + rest, 0, a),
        flag_of(s) != Flag::Unknown,
{
    lemma_option_spellings(s, l);
    let x = seq![s] + rest;
    let y = seq![l] + rest;
    assert(x[0] == s && y[0] == l);
    assert forall|k: int| 1 <= k < x.len() implies x[k] == y[k] by {
        assert(x[k] == rest[k - 1] && y[k] == rest[k - 1]);
    }
    if 1 < x.len() {
        match with_value(flag_of(s), x[1], a) {
            Ok(b) => lemma_parse_from_tail(x, y, 2, b),
            Err(_) => {},
        }
    }
}

/// The characters of each argument.
pub open spec fn arg_texts(args: Seq<String>) -> Seq<Seq<char>> {
    args.map_values(|s: String| s@)
}

/// A parse result with its texts taken as characters.
pub open spec fn parse_result_view(r: Result<CliArgs, String>) -> Result<CliArgsView, Seq<char>> {
    match r {
        Ok(a) => Ok(a@),
        Err(e) => Err(e@),
    }
}

/// `a + b + c` as one string.
fn concat3(a: &str, b: &str, c: &str) -> (r: String)
    ensures
        r@ == a@ + b@ + c@,
{
    let mut out = String::from_str(a);
    out.append(b);
    out.append(c);
    out
}

/// Which option `a` names.
pub fn classify_flag(a: &str) -> (r: Flag)
    ensures
        r == flag_of(a@),
{
    let v = chars_of(a);
    if str_eq_chars(&v, &chars_of("--prompt")) || str_eq_chars(&v, &chars_of("-p")) {
        Flag::Prompt
    } else if str_eq_chars(&v, &chars_of("--context")) || str_eq_chars(&v, &chars_of("-c")) {
        Flag::Context
    } else if str_eq_chars(&v, &chars_of("--input")) || str_eq_chars(&v, &chars_of("-i")) {
        Flag::Input
    } else if str_eq_chars(&v, &chars_of("--template")) || str_eq_chars(&v, &chars_of("-t")) {
        Flag::Template
    } else if str_eq_chars(&v, &chars_of("--backend")) || str_eq_chars(&v, &chars_of("-b")) {
        Flag::Backend
    } else if str_eq_chars(&v, &chars_of("--url")) || str_eq_chars(&v, &chars_of("-u")) {
        Flag::Url
    } else if str_eq_chars(&v, &chars_of("--model")) || str_eq_chars(&v, &chars_of("-m")) {
        Flag::Model
    } else if str_eq_chars(&v, &chars_of("--temperature")) {
        Flag::Temperature
    } else if str_eq_chars(&v, &chars_of("--tokens")) || str_eq_chars(
        &v,
        &chars_of("--max-tokens"),
    ) {
        Flag::Tokens
    } else if str_eq_chars(&v, &chars_of("--system")) || str_eq_chars(&v, &chars_of("-s")) {
        Flag::System
    } else if str_eq_chars(&v, &chars_of("--help")) || str_eq_chars(&v, &chars_of("-h")) {
        Flag::Help
    } else {
        Flag::Unknown
    }
}

/// The name of an option in error messages.
fn flag_label(f: Flag) -> (r: &'static str)
    ensures
        r@ == flag_name(f),
{
    match f {
        Flag::Prompt => "--prompt",
        Flag::Context => "--context",
        Flag::Input => "--input",
        Flag::Template => "--template",
        Flag::Backend => "--backend",
        Flag::Url => "--url",
        Flag::Model => "--model",
        Flag::Temperature => "--temperature",
        Flag::Tokens => "--tokens",
        Flag::System => "--system",
        Flag::Help => "--help",
        Flag::Unknown => "",
    }
}

/// Advance `i` to the value of the option at `i` and return it, or the
/// "needs a value" error for `flag` when the arguments end there.
pub fn next_value(args: &[String], i: &mut usize, flag: &str) -> (r: Result<String, String>)
    requires
        *old(i) < usize::MAX,
    ensures
        *final(i) == *old(i) + 1,
        *final(i) < args@.len() ==> (r matches Ok(v) && v@ == args@[*final(i) as int]@),
        *final(i) >= args@.len() ==> (r matches Err(e) && e@ == missing_value_msg(flag@)),
{
    *i = *i + 1;
    if *i < args.len() {
        Ok(args[*i].clone())
    } else {
        Err(concat3("参数 ", flag, " 需要一个值"))
    }
}

/// Parse the arguments that follow `llm`.
pub fn parse_args(args: &[String]) -> (r: Result<CliArgs, String>)
    ensures
        parse_result_view(r) == parse_from(arg_texts(args@), 0, default_args()),
{
    let ghost texts = arg_texts(args@);
    let mut out = CliArgs::default();
    let mut i: usize = 0;
    while i < args.len()
        invariant
            i <= args.len(),
            texts == arg_texts(args@),
            parse_from(texts, i as nat, out@) == parse_from(texts, 0, default_args()),
        decreases args.len() - i,
    {
        let f = classify_flag(args[i].as_str());
        assert(texts[i as int] == args@[i as int]@);
        if f == Flag::Help {
            out.help = true;
            return Ok(out);
        }
        if f == Flag::Unknown {
            return Err(concat3("未知参数: ", args[i].as_str(), "，使用 --help 查看帮助"));
        }
        let ghost before = out@;
        let ghost at = i;
        let v = match next_value(args, &mut i, flag_label(f)) {
            Ok(v) => v,
            Err(e) => {
                return Err(e);
            },
        };
        assert(texts[i as int] == v@);
        match f {
            Flag::Prompt => {
                out.prompt = Some(v);
            },
            Flag::Context => {
                out.context = Some(v);
            },
            Flag::Input => {
                out.input = Some(v);
            },
            Flag::Template => {
                out.template = Some(v);
            },
            Flag::Backend => {
                out.backend = v;
            },
            Flag::Url => {
                out.url = Some(v);
            },
            Flag::Model => {
                out.model = Some(v);
            },
            Flag::Temperature => {
                if !is_float_literal(v.as_str()) {
                    return Err(concat3("--temperature: 无效的浮点数 \"", v.as_str(), "\""));
                }
                out.temperature = Some(v);
            },
            Flag::Tokens => {
                match parse_u32_text(v.as_str()) {
                    Some(n) => {
                        out.max_tokens = Some(n);
                    },
                    None => {
                        return Err(concat3("--tokens: 无效的整数 \"", v.as_str(), "\""));
                    },
                }
            },
            Flag::System => {
                out.system_prompt = Some(v);
            },
            _ => {},
        }
        assert(with_value(f, texts[at + 1], before) == Ok::<CliArgsView, Seq<char>>(out@));
        i = i + 1;
    }
    Ok(out)
}


// ── Templates and backends ───────────────────────────────────────────────────

/// The template a (lower-case) name selects, in English or Chinese.
pub open spec fn template_named(n: Seq<char>) -> Option<PromptTemplate> {
    if n == "continuation"@ || n == "续写"@ || n == "cont"@ {
        Some(PromptTemplate::Continuation)
    } else if n == "expansion"@ || n == "扩写"@ || n == "exp"@ {
        Some(PromptTemplate::Expansion)
    } else if n == "dialogue"@ || n == "对话"@ || n == "dial"@ {
        Some(PromptTemplate::DialogueOptimize)
    } else if n == "character"@ || n == "人物"@ || n == "char"@ {
        Some(PromptTemplate::CharacterSummary)
    } else if n == "scene"@ || n == "场景"@ {
        Some(PromptTemplate::SceneOpening)
    } else if n == "twist"@ || n == "转折"@ {
        Some(PromptTemplate::PlotTwist)
    } else if n == "ending"@ || n == "结尾"@ {
        Some(PromptTemplate::ChapterEnding)
    } else if n == "outline"@ || n == "大纲"@ {
        Some(PromptTemplate::ChapterOutline)
    } else {
        None
    }
}

pub open spec fn unknown_template_msg(n: Seq<char>) -> Seq<char> {
    "未知模板 \""@ + n
        + "\"。可用: continuation, expansion, dialogue, character, scene, twist, ending, outline"@
}

/// The template a template name selects, its letters taken in lower case.
pub open spec fn template_result(name: Seq<char>) -> Result<PromptTemplate, Seq<char>> {
    match template_named(lowercase(name)) {
        Some(t) => Ok(t),
        None => Err(unknown_template_msg(lowercase(name))),
    }
}

/// The template named by an already lower-cased name.
pub fn template_from_name(lower: &str) -> (r: Result<PromptTemplate, String>)
    ensures
        template_named(lower@) matches Some(t) ==> r == Ok::<PromptTemplate, String>(t),
        template_named(lower@) is None ==> (r matches Err(e) && e@ == unknown_template_msg(
            lower@,
        )),
{
    let v = chars_of(lower);
    if str_eq_chars(&v, &chars_of("continuation")) || str_eq_chars(&v, &chars_of("续写"))
        || str_eq_chars(&v, &chars_of("cont")) {
        Ok(PromptTemplate::Continuation)
    } else if str_eq_chars(&v, &chars_of("expansion")) || str_eq_chars(&v, &chars_of("扩写"))
        || str_eq_chars(&v, &chars_of("exp")) {
        Ok(PromptTemplate::Expansion)
    } else if str_eq_chars(&v, &chars_of("dialogue")) || str_eq_chars(&v, &chars_of("对话"))
        || str_eq_chars(&v, &chars_of("dial")) {
        Ok(PromptTemplate::DialogueOptimize)
    } else if str_eq_chars(&v, &chars_of("character")) || str_eq_chars(&v, &chars_of("人物"))
        || str_eq_chars(&v, &chars_of("char")) {
        Ok(PromptTemplate::CharacterSummary)
    } else if str_eq_chars(&v, &chars_of("scene")) || str_eq_chars(&v, &chars_of("场景")) {
        Ok(PromptTemplate::SceneOpening)
    } else if str_eq_chars(&v, &chars_of("twist")) || str_eq_chars(&v, &chars_of("转折")) {
        Ok(PromptTemplate::PlotTwist)
    } else if str_eq_chars(&v, &chars_of("ending")) || str_eq_chars(&v, &chars_of("结尾")) {
        Ok(PromptTemplate::ChapterEnding)
    } else if str_eq_chars(&v, &chars_of("outline")) || str_eq_chars(&v, &chars_of("大纲")) {
        Ok(PromptTemplate::ChapterOutline)
    } else {
        Err(
            concat3(
                "未知模板 \"",
                lower,
                "\"。可用: continuation, expansion, dialogue, character, scene, twist, ending, outline",
            ),
        )
    }
}

/// The template a name selects; the name is matched in lower case.
pub fn parse_template(name: &str) -> (r: Result<PromptTemplate, String>)
    ensures
        template_result(name@) matches Ok(t) ==> r == Ok::<PromptTemplate, String>(t),
        template_result(name@) matches Err(m) ==> (r matches Err(e) && e@ == m),
{
    let lower = to_lowercase(name);
    template_from_name(lower.as_str())
}

/// The LLM backends the command line can select.
#[derive(Clone, Copy, PartialEq, Eq, Structural, Debug)]
pub enum BackendKind {
    /// The offline mock backend.
    Mock,
    /// The HTTP API backend (Ollama or OpenAI-compatible).
    Api,
    /// A local llama.cpp server.
    LocalServer,
}

/// The backend a (lower-case) name selects.
pub open spec fn backend_named(n: Seq<char>) -> Option<BackendKind> {
    if n == "mock"@ || n == "模拟"@ {
        Some(BackendKind::Mock)
    } else if n == "api"@ || n == "http"@ {
        Some(BackendKind::Api)
    } else if n == "local"@ || n == "llama"@ || n == "本地"@ {
        Some(BackendKind::LocalServer)
    } else {
        None
    }
}

pub open spec fn unknown_backend_msg(n: Seq<char>) -> Seq<char> {
    "未知后端 \""@ + n + "\"。可用: mock, api, local"@
}

/// The backend a backend name selects, its letters taken in lower case.
pub open spec fn backend_result(name: Seq<char>) -> Result<BackendKind, Seq<char>> {
    match backend_named(lowercase(name)) {
        Some(b) => Ok(b),
        None => Err(unknown_backend_msg(lowercase(name))),
    }
}

/// The backend named by an already lower-cased name.
pub fn backend_from_name(lower: &str) -> (r: Result<BackendKind, String>)
    ensures
        backend_named(lower@) matches Some(b) ==> r == Ok::<BackendKind, String>(b),
        backend_named(lower@) is None ==> (r matches Err(e) && e@ == unknown_backend_msg(lower@)),
{
    let v = chars_of(lower);
    if str_eq_chars(&v, &chars_of("mock")) || str_eq_chars(&v, &chars_of("模拟")) {
        Ok(BackendKind::Mock)
    } else if str_eq_chars(&v, &chars_of("api")) || str_eq_chars(&v, &chars_of("http")) {
        Ok(BackendKind::Api)
    } else if str_eq_chars(&v, &chars_of("local")) || str_eq_chars(&v, &chars_of("llama"))
        || str_eq_chars(&v, &chars_of("本地")) {
        Ok(BackendKind::LocalServer)
    } else {
        Err(concat3("未知后端 \"", lower, "\"。可用: mock, api, local"))
    }
}

/// The backend the `--backend` option selects.
pub fn build_backend(args: &CliArgs) -> (r: Result<BackendKind, String>)
    ensures
        backend_result(args@.backend) matches Ok(b) ==> r == Ok::<BackendKind, String>(b),
        backend_result(args@.backend) matches Err(m) ==> (r matches Err(e) && e@ == m),
{
    let lower = to_lowercase(args.backend.as_str());
    backend_from_name(lower.as_str())
}

// ── The prompt ───────────────────────────────────────────────────────────────

/// An optional text, or the empty text.
pub open spec fn text_or_empty(o: Option<Seq<char>>) -> Seq<char> {
    match o {
        Some(s) => s,
        None => seq![],
    }
}

/// `body` with the trimmed context block and a blank line before it, unless
/// the context is empty.
pub open spec fn with_context(context: Option<Seq<char>>, body: Seq<char>) -> Seq<char> {
    if text_or_empty(context).len() == 0 {
        body
    } else {
        trim_ws(text_or_empty(context)) + "\n\n"@ + body
    }
}

/// The prompt is read from stdin: neither a template nor a prompt was given.
pub open spec fn reads_stdin(a: CliArgsView) -> bool {
    a.template is None && a.prompt is None
}

/// The final prompt.  With a template: the template filled with the context
/// and the input (the prompt stands in for a missing input), which must not
/// be empty.  Otherwise the prompt as given, or the trimmed stdin text, which
/// must not be empty; a non-empty context is put before either (both sides
/// trimmed when the prompt was given).
pub open spec fn final_prompt(a: CliArgsView, stdin: Seq<char>) -> Result<Seq<char>, Seq<char>> {
    match a.template {
        Some(name) => match template_result(name) {
            Err(e) => Err(e),
            Ok(t) => {
                let input = match a.input {
                    Some(s) => s,
                    None => text_or_empty(a.prompt),
                };
                if input.len() == 0 {
                    Err("使用 --template 时请通过 --input 或 --prompt 提供输入文本"@)
                } else {
                    Ok(template_prompt(t, text_or_empty(a.context), input))
                }
            },
        },
        None => match a.prompt {
            Some(p) => if text_or_empty(a.context).len() == 0 {
                Ok(p)
            } else {
                Ok(with_context(a.context, trim_ws(p)))
            },
            None => if trim_ws(stdin).len() == 0 {
                Err("提示词为空，请通过 --prompt 或 stdin 提供输入"@)
            } else {
                Ok(with_context(a.context, trim_ws(stdin)))
            },
        },
    }
}

/// A prompt result with its texts taken as characters.
pub open spec fn text_result_view(r: Result<String, String>) -> Result<Seq<char>, Seq<char>> {
    match r {
        Ok(s) => Ok(s@),
        Err(e) => Err(e@),
    }
}

/// Whether the prompt has to be read from stdin.
pub fn needs_stdin(args: &CliArgs) -> (r: bool)
    ensures
        r == reads_stdin(args@),
{
    args.template.is_none() && args.prompt.is_none()
}

/// The optional text, or `""`.
fn text_or_blank(o: &Option<String>) -> (r: &str)
    ensures
        r@ == text_or_empty(opt_text(*o)),
{
    match o {
        Some(s) => s.as_str(),
        None => {
            proof {
                reveal_strlit("");
            }
            ""
        },
    }
}

/// `body` after the trimmed context and a blank line, or `body` alone when
/// the context is empty.
fn prepend_context(context: &Option<String>, body: &str) -> (r: String)
    ensures
        r@ == with_context(opt_text(*context), body@),
{
    let ctx = text_or_blank(context);
    if ctx.is_empty() {
        return String::from_str(body);
    }
    let mut out = string_of(&trim_chars(&chars_of(ctx)));
    out.append("\n\n");
    out.append(body);
    out
}

/// Build the final prompt from the arguments; `stdin_text` is what stdin
/// held, and is only looked at when [`needs_stdin`] says so.
pub fn resolve_prompt(args: &CliArgs, stdin_text: &str) -> (r: Result<String, String>)
    ensures
        text_result_view(r) == final_prompt(args@, stdin_text@),
{
    if let Some(name) = &args.template {
        let template = match parse_template(name.as_str()) {
            Ok(t) => t,
            Err(e) => {
                return Err(e);
            },
        };
        let context = text_or_blank(&args.context);
        let input = match &args.input {
            Some(s) => s.as_str(),
            None => text_or_blank(&args.prompt),
        };
        if input.is_empty() {
            return Err(String::from_str("使用 --template 时请通过 --input 或 --prompt 提供输入文本"));
        }
        return Ok(template.fill(context, input));
    }
    if let Some(p) = &args.prompt {
        if text_or_blank(&args.context).is_empty() {
            return Ok(p.clone());
        }
        let body = string_of(&trim_chars(&chars_of(p.as_str())));
        return Ok(prepend_context(&args.context, body.as_str()));
    }
    let body = string_of(&trim_chars(&chars_of(stdin_text)));
    if body.as_str().is_empty() {
        Err(String::from_str("提示词为空，请通过 --prompt 或 stdin 提供输入"))
    } else {
        Ok(prepend_context(&args.context, body.as_str()))
    }
}

} // verus!
