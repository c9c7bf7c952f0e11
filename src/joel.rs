//! A small command language: a command name followed by arguments separated by whitespace.
//! An argument may be wrapped in `"` or `'` to hold whitespace, and `\` escapes the next
//! character.

use vstd::prelude::*;
use vstd::string::{StrSliceExecFns, StringExecFns};

verus! {

/// Whether a character counts as whitespace (the Unicode `White_Space` property).
pub uninterp spec fn white_space(c: char) -> bool;

/// Relies on `char::is_whitespace`: whether the character has the Unicode `White_Space`
/// property.
#[verifier::external_body]
fn is_white(c: char) -> (r: bool)
    ensures
        r == white_space(c),
{
    c.is_whitespace()
}

/// Relies on `String`'s `FromIterator<char>`: the string of the given characters, in order.
#[verifier::external_body]
fn string_of(chars: &Vec<char>) -> (r: String)
    ensures
        r@ == chars@,
{
    chars.iter().collect()
}

/// Why text is no command.
#[derive(Debug, PartialEq, Eq, Structural)]
pub enum JoelError {
    /// Nothing but whitespace.
    EmptyCommand,
    /// A closing quote is followed by something other than whitespace; the number of
    /// arguments read before it.
    ExpectedWhitespace(usize),
    /// A quote opens in the middle of an argument; the number of arguments read before it.
    MalformedDelimiter(usize),
    /// The text ends with an escape.
    UnfinishedEscape,
}

/// Where the reader of arguments stands.
#[derive(Clone, Copy, Debug, PartialEq, Eq, Structural)]
pub enum JoelParseState {
    /// Inside quotes opened with the given character.
    Delimiter(char),
    /// After an escape; inside quotes opened with the given character, if any.
    Escape(Option<char>),
    /// The next character must be whitespace.
    ExpectWhitespace,
    /// Ordinary text. This is where reading starts.
    Natural,
}

/// The state an escape returns to.
pub open spec fn unescaped(quote: Option<char>) -> JoelParseState {
    match quote {
        Some(d) => JoelParseState::Delimiter(d),
        None => JoelParseState::Natural,
    }
}

/// The state an escape starts from.
pub open spec fn escaped_from(state: JoelParseState) -> JoelParseState {
    match state {
        JoelParseState::Delimiter(d) => JoelParseState::Escape(Some(d)),
        _ => JoelParseState::Escape(None),
    }
}

impl JoelParseState {
    pub fn escaping(&self) -> (r: bool)
        ensures
            r == (*self is Escape),
    {
        match self {
            JoelParseState::Escape(_) => true,
            _ => false,
        }
    }

    /// Returns `true` if escaping, and goes back to the state before the escape.
    pub fn finish_escape(&mut self) -> (r: bool)
        ensures
            r == (*old(self) is Escape),
            *old(self) matches JoelParseState::Escape(q) ==> *final(self) == unescaped(q),
            !(*old(self) is Escape) ==> *final(self) == *old(self),
    {
        if let JoelParseState::Escape(quote) = *self {
            *self = match quote {
                Some(d) => JoelParseState::Delimiter(d),
                None => JoelParseState::Natural,
            };
            true
        } else {
            false
        }
    }

    pub fn start_escape(&mut self)
        ensures
            *final(self) == escaped_from(*old(self)),
    {
        *self = match *self {
            JoelParseState::Delimiter(d) => JoelParseState::Escape(Some(d)),
            _ => JoelParseState::Escape(None),
        };
    }
}

/// Where reading the arguments stands: the state, the argument being built, and the
/// arguments finished so far.
pub struct ScanState {
    pub mode: JoelParseState,
    pub builder: Seq<char>,
    pub args: Seq<Seq<char>>,
}

/// The arguments with the one being built added, unless it is empty.
pub open spec fn flushed(args: Seq<Seq<char>>, builder: Seq<char>) -> Seq<Seq<char>> {
    if builder.len() > 0 {
        args.push(builder)
    } else {
        args
    }
}

pub open spec fn is_quote(c: char) -> bool {
    c == '"' || c == '\''
}

/// `c` added to the argument being built, leaving an escape.
pub open spec fn taken(s: ScanState, c: char) -> ScanState {
    ScanState {
        mode: match s.mode {
            JoelParseState::Escape(q) => unescaped(q),
            m => m,
        },
        builder: s.builder.push(c),
        args: s.args,
    }
}

/// One character of the arguments read.
pub open spec fn scan_step(s: ScanState, c: char) -> Result<ScanState, JoelError> {
    if s.mode == JoelParseState::ExpectWhitespace {
        if white_space(c) {
            Ok(
                ScanState {
                    mode: JoelParseState::Natural,
                    builder: Seq::empty(),
                    args: flushed(s.args, s.builder),
                },
            )
        } else {
            Err(JoelError::ExpectedWhitespace(s.args.len() as usize))
        }
    } else if c == '\\' {
        if s.mode is Escape {
            Ok(taken(s, c))
        } else {
            Ok(ScanState { mode: escaped_from(s.mode), ..s })
        }
    } else if is_quote(c) {
        match s.mode {
            JoelParseState::Escape(_) => Ok(taken(s, c)),
            JoelParseState::Delimiter(d) => if c == d {
                Ok(ScanState { mode: JoelParseState::ExpectWhitespace, ..s })
            } else {
                Ok(taken(s, c))
            },
            _ => if s.builder.len() > 0 {
                Err(JoelError::MalformedDelimiter(s.args.len() as usize))
            } else {
                Ok(ScanState { mode: JoelParseState::Delimiter(c), ..s })
            },
        }
    } else if white_space(c) && s.mode == JoelParseState::Natural {
        Ok(
            ScanState {
                mode: JoelParseState::Natural,
                builder: Seq::empty(),
                args: flushed(s.args, s.builder),
            },
        )
    } else {
        Ok(taken(s, c))
    }
}

/// The characters read one by one from the start state.
pub open spec fn scan(chars: Seq<char>) -> Result<ScanState, JoelError>
    decreases chars.len(),
{
    if chars.len() == 0 {
        Ok(ScanState { mode: JoelParseState::Natural, builder: Seq::empty(), args: Seq::empty() })
    } else {
        match scan(chars.drop_last()) {
            Ok(s) => scan_step(s, chars.last()),
            Err(e) => Err(e),
        }
    }
}

/// The arguments of a whole text, or why it has none.
pub open spec fn arguments_of(chars: Seq<char>) -> Result<Seq<Seq<char>>, JoelError> {
    match scan(chars) {
        Ok(s) => if s.mode is Escape {
            Err(JoelError::UnfinishedEscape)
        } else {
            Ok(flushed(s.args, s.builder))
        },
        Err(e) => Err(e),
    }
}

pub open spec fn trim_start(s: Seq<char>) -> Seq<char>
    decreases s.len(),
{
    if s.len() > 0 && white_space(s[0]) {
        trim_start(s.drop_first())
    } else {
        s
    }
}

pub open spec fn trim_end(s: Seq<char>) -> Seq<char>
    decreases s.len(),
{
    if s.len() > 0 && white_space(s.last()) {
        trim_end(s.drop_last())
    } else {
        s
    }
}

/// The text without whitespace at either end.
pub open spec fn trimmed(s: Seq<char>) -> Seq<char> {
    trim_end(trim_start(s))
}

/// The place of the first space, if any.
pub open spec fn first_space(s: Seq<char>, k: int) -> bool {
    0 <= k < s.len() && s[k] == ' ' && forall|j: int| 0 <= j < k ==> #[trigger] s[j] != ' '
}

/// The command name: the trimmed text up to its first space.
pub open spec fn command_of(text: Seq<char>) -> Seq<char> {
    let t = trimmed(text);
    if exists|k: int| first_space(t, k) {
        t.take(choose|k: int| first_space(t, k))
    } else {
        t
    }
}

/// The arguments' text: what follows the first space of the trimmed text, trimmed.
pub open spec fn rest_of(text: Seq<char>) -> Seq<char> {
    let t = trimmed(text);
    if exists|k: int| first_space(t, k) {
        trimmed(t.skip((choose|k: int| first_space(t, k)) + 1))
    } else {
        Seq::empty()
    }
}

pub open spec fn needs_escape(c: char) -> bool {
    c == '"' || c == '\'' || c == '\\'
}

/// The argument with `"`, `'` and `\` escaped.
pub open spec fn escaped(a: Seq<char>) -> Seq<char>
    decreases a.len(),
{
    if a.len() == 0 {
        a
    } else {
        escaped(a.drop_last()) + if needs_escape(a.last()) {
            seq!['\\', a.last()]
        } else {
            seq![a.last()]
        }
    }
}

pub open spec fn has_white(a: Seq<char>) -> bool {
    exists|i: int| 0 <= i < a.len() && white_space(#[trigger] a[i])
}

/// An argument as written in a command: escaped, and quoted if it holds whitespace.
pub open spec fn rendered(a: Seq<char>) -> Seq<char> {
    if has_white(a) {
        seq!['"'] + escaped(a) + seq!['"']
    } else {
        escaped(a)
    }
}

/// The arguments as written in a command, separated by spaces.
pub open spec fn joined(args: Seq<Seq<char>>) -> Seq<char>
    decreases args.len(),
{
    if args.len() == 0 {
        Seq::empty()
    } else if args.len() == 1 {
        rendered(args[0])
    } else {
        joined(args.drop_last()) + seq![' '] + rendered(args.last())
    }
}

/// The chars of a text, as a vector.
fn chars_of(s: &str) -> (r: Vec<char>)
    ensures
        r@ == s@,
{
    let n = s.unicode_len();
    let mut r: Vec<char> = Vec::new();
    let mut i: usize = 0;
    while i < n
        invariant
            n == s@.len(),
            0 <= i <= n,
            r@ == s@.take(i as int),
        decreases n - i,
    {
        r.push(s.get_char(i));
        i = i + 1;
        assert(r@ =~= s@.take(i as int));
    }
    assert(r@ =~= s@);
    r
}

/// The bounds of `s[from..to]` without whitespace at either end.
fn trim_bounds(s: &Vec<char>, from: usize, to: usize) -> (r: (usize, usize))
    requires
        from <= to <= s@.len(),
    ensures
        from <= r.0 <= r.1 <= to,
        s@.subrange(r.0 as int, r.1 as int) == trimmed(s@.subrange(from as int, to as int)),
{
    let ghost whole = s@.subrange(from as int, to as int);
    let mut lo = from;
    while lo < to && is_white(s[lo])
        invariant
            from <= lo <= to <= s@.len(),
            trim_start(whole) == trim_start(s@.subrange(lo as int, to as int)),
        decreases to - lo,
    {
        assert(s@.subrange(lo as int, to as int).drop_first() =~= s@.subrange(lo + 1, to as int));
        lo = lo + 1;
    }
    assert(trim_start(whole) == s@.subrange(lo as int, to as int));
    let mut hi = to;
    while hi > lo && is_white(s[hi - 1])
        invariant
            from <= lo <= hi <= to <= s@.len(),
            trimmed(whole) == trim_end(s@.subrange(lo as int, hi as int)),
        decreases hi - lo,
    {
        assert(s@.subrange(lo as int, hi as int).drop_last() =~= s@.subrange(lo as int, hi - 1));
        hi = hi - 1;
    }
    (lo, hi)
}


pub proof fn lemma_has_white_push(s: Seq<char>, c: char)
    ensures
        has_white(s.push(c)) == (has_white(s) || white_space(c)),
{
    let t = s.push(c);
    if has_white(s) {
        let i = choose|i: int| 0 <= i < s.len() && white_space(#[trigger] s[i]);
        assert(t[i] == s[i]);
    }
    if white_space(c) {
        assert(t[s.len() as int] == c);
    }
    if has_white(t) {
        let i = choose|i: int| 0 <= i < t.len() && white_space(#[trigger] t[i]);
        if i < s.len() {
            assert(s[i] == t[i]);
        }
    }
}

/// One argument as written in a command.
fn render_argument(argument: &str) -> (r: Vec<char>)
    ensures
        r@ == rendered(argument@),
{
    let ghost a = argument@;
    let n = argument.unicode_len();
    let mut body: Vec<char> = Vec::new();
    let mut has_whitespace = false;
    let mut j: usize = 0;
    while j < n
        invariant
            n == a.len(),
            a == argument@,
            0 <= j <= n,
            body@ == escaped(a.take(j as int)),
            has_whitespace == has_white(a.take(j as int)),
        decreases n - j,
    {
        let c = argument.get_char(j);
        if is_white(c) {
            has_whitespace = true;
        }
        if c == '"' || c == '\'' || c == '\\' {
            body.push('\\');
        }
        body.push(c);
        proof {
            assert(a.take(j + 1) =~= a.take(j as int).push(c));
            assert(a.take(j + 1).drop_last() =~= a.take(j as int));
            lemma_has_white_push(a.take(j as int), c);
            assert(body@ =~= escaped(a.take(j + 1)));
        }
        j = j + 1;
    }
    proof {
        assert(a.take(n as int) =~= a);
    }
    if has_whitespace {
        let mut quoted: Vec<char> = Vec::new();
        quoted.push('"');
        quoted.append(&mut body);
        quoted.push('"');
        assert(quoted@ =~= seq!['"'] + escaped(a) + seq!['"']);
        quoted
    } else {
        body
    }
}

/// Reads one character of the arguments: the state, the argument being built and the
/// finished arguments move on as `scan_step` says.
fn read_char(
    state: &mut JoelParseState,
    builder: &mut Vec<char>,
    args: &mut Vec<String>,
    c: char,
) -> (r: Result<(), JoelError>)
    ensures
        scan_step(
            ScanState { mode: *old(state), builder: old(builder)@, args: views(old(args)@) },
            c,
        ) == match r {
            Ok(_) => Ok::<ScanState, JoelError>(
                ScanState { mode: *final(state), builder: final(builder)@, args: views(final(args)@) },
            ),
            Err(e) => Err::<ScanState, JoelError>(e),
        },
{
    let ghost s = ScanState { mode: *state, builder: builder@, args: views(args@) };
    if let JoelParseState::ExpectWhitespace = *state {
        if is_white(c) {
            if builder.len() > 0 {
                args.push(string_of(builder));
            }
            *builder = Vec::new();
            *state = JoelParseState::Natural;
            assert(views(args@) =~= flushed(s.args, s.builder));
            return Ok(());
        } else {
            return Err(JoelError::ExpectedWhitespace(args.len()));
        }
    }
    if c == '\\' {
        if !state.finish_escape() {
            state.start_escape();
            return Ok(());
        }
    } else if c == '"' || c == '\'' {
        if !state.finish_escape() {
            if let JoelParseState::Delimiter(d) = *state {
                if c == d {
                    *state = JoelParseState::ExpectWhitespace;
                    return Ok(());
                }
            } else {
                if builder.len() > 0 {
                    return Err(JoelError::MalformedDelimiter(args.len()));
                }
                *state = JoelParseState::Delimiter(c);
                return Ok(());
            }
        }
    } else if is_white(c) {
        if let JoelParseState::Natural = *state {
            if builder.len() > 0 {
                args.push(string_of(builder));
            }
            *builder = Vec::new();
            assert(views(args@) =~= flushed(s.args, s.builder));
            return Ok(());
        }
    }
    builder.push(c);
    state.finish_escape();
    Ok(())
}

/// Reads the arguments of a text.
fn read_arguments(rest: &Vec<char>) -> (r: Result<Vec<String>, JoelError>)
    ensures
        match arguments_of(rest@) {
            Ok(args) => r matches Ok(v) && views(v@) == args,
            Err(e) => r == Err::<Vec<String>, JoelError>(e),
        },
{
    let mut state = JoelParseState::Natural;
    let mut builder: Vec<char> = Vec::new();
    let mut args: Vec<String> = Vec::new();
    let mut i: usize = 0;
    proof {
        assert(rest@.take(0) =~= Seq::<char>::empty());
        assert(views(args@) =~= Seq::<Seq<char>>::empty());
    }
    while i < rest.len()
        invariant
            0 <= i <= rest@.len(),
            scan(rest@.take(i as int)) == Ok::<ScanState, JoelError>(
                ScanState { mode: state, builder: builder@, args: views(args@) },
            ),
        decreases rest@.len() - i,
    {
        proof {
            assert(rest@.take(i + 1).drop_last() =~= rest@.take(i as int));
            assert(rest@.take(i + 1).last() == rest@[i as int]);
        }
        match read_char(&mut state, &mut builder, &mut args, rest[i]) {
            Ok(_) => {},
            Err(e) => {
                proof {
                    lemma_scan_error_stays(rest@, i as int + 1);
                }
                return Err(e);
            },
        }
        i = i + 1;
    }
    proof {
        assert(rest@.take(rest@.len() as int) =~= rest@);
    }
    if state.escaping() {
        return Err(JoelError::UnfinishedEscape);
    }
    if builder.len() > 0 {
        let ghost before = views(args@);
        args.push(string_of(&builder));
        assert(views(args@) =~= before.push(builder@));
    }
    Ok(args)
}

/// Once reading fails, it stays failed.
pub proof fn lemma_scan_error_stays(chars: Seq<char>, i: int)
    requires
        0 <= i <= chars.len(),
        scan(chars.take(i)) is Err,
    ensures
        scan(chars) == scan(chars.take(i)),
    decreases chars.len() - i,
{
    if i < chars.len() {
        assert(chars.take(i + 1).drop_last() =~= chars.take(i));
        lemma_scan_error_stays(chars, i + 1);
    } else {
        assert(chars.take(i) =~= chars);
    }
}

/// The bounds of the command name and of the arguments' text in a text's characters.
fn split_command(chars: &Vec<char>) -> (r: (usize, usize, usize, usize))
    ensures
        r.0 <= r.1 <= chars@.len(),
        r.2 <= r.3 <= chars@.len(),
        chars@.subrange(r.0 as int, r.1 as int) == command_of(chars@),
        chars@.subrange(r.2 as int, r.3 as int) == rest_of(chars@),
{
    let (lo, hi) = trim_bounds(chars, 0, chars.len());
    let ghost t = trimmed(chars@);
    proof {
        assert(chars@.subrange(0, chars@.len() as int) =~= chars@);
    }
    let mut k = lo;
    while k < hi && chars[k] != ' '
        invariant
            lo <= k <= hi <= chars@.len(),
            t == chars@.subrange(lo as int, hi as int),
            forall|j: int| 0 <= j < k - lo ==> #[trigger] t[j] != ' ',
        decreases hi - k,
    {
        k = k + 1;
    }
    if k < hi {
        proof {
            assert(first_space(t, k - lo));
            let c = choose|c: int| first_space(t, c);
            assert(c == k - lo) by {
                if c < k - lo {
                    assert(t[c] != ' ');
                } else if c > k - lo {
                    assert(t[k - lo] == ' ');
                }
            }
            assert(t.skip(k - lo + 1) =~= chars@.subrange(k + 1, hi as int));
            assert(t.take(k - lo) =~= chars@.subrange(lo as int, k as int));
        }
        let (rest_lo, rest_hi) = trim_bounds(chars, k + 1, hi);
        (lo, k, rest_lo, rest_hi)
    } else {
        proof {
            assert(!exists|c: int| first_space(t, c)) by {
                if exists|c: int| first_space(t, c) {
                    let c = choose|c: int| first_space(t, c);
                    assert(t[c] != ' ');
                }
            }
            assert(t =~= chars@.subrange(lo as int, k as int));
            assert(chars@.subrange(hi as int, hi as int) =~= Seq::<char>::empty());
        }
        (lo, k, hi, hi)
    }
}

/// A command with its arguments.
#[derive(Clone, Debug)]
pub struct Joel {
    /// The arguments this command was run with.
    pub arguments: Vec<String>,
    /// The command name used in comparison.
    pub command: String,
    /// The text the arguments were read from, if they were read from text.
    pub original_arguments: Option<String>,
}

/// The arguments as character sequences.
pub open spec fn views(args: Seq<String>) -> Seq<Seq<char>> {
    args.map_values(|s: String| s@)
}

impl Joel {
    /// A command with no arguments.
    pub fn new(command: String) -> (r: Self)
        ensures
            r.command@ == command@,
            r.arguments@.len() == 0,
            r.original_arguments is None,
    {
        Joel { arguments: Vec::new(), command, original_arguments: None }
    }

    /// The number of arguments.
    pub fn len(&self) -> (r: usize)
        ensures
            r == self.arguments@.len(),
    {
        self.arguments.len()
    }

    pub fn push(&mut self, argument: String)
        ensures
            final(self).arguments@ == old(self).arguments@.push(argument),
            final(self).command == old(self).command,
            final(self).original_arguments == old(self).original_arguments,
    {
        self.arguments.push(argument);
    }

    /// The text of the arguments: the one they were read from, or one written from them,
    /// each escaped, quoted when it holds whitespace, and separated by spaces.
    pub fn arguments_string(&self) -> (r: String)
        ensures
            self.original_arguments matches Some(o) ==> r@ == o@,
            self.original_arguments is None ==> r@ == joined(views(self.arguments@)),
    {
        if let Some(original_arguments) = &self.original_arguments {
            return original_arguments.clone();
        }
        let ghost all = views(self.arguments@);
        let mut out: Vec<char> = Vec::new();
        let mut k: usize = 0;
        while k < self.arguments.len()
            invariant
                0 <= k <= self.arguments@.len(),
                all == views(self.arguments@),
                out@ == joined(all.take(k as int)),
            decreases self.arguments@.len() - k,
        {
            let ghost before = out@;
            if k > 0 {
                out.push(' ');
            }
            let mut piece = render_argument(self.arguments[k].as_str());
            out.append(&mut piece);
            proof {
                let t = all.take(k + 1);
                assert(t.drop_last() =~= all.take(k as int));
                assert(t.last() == self.arguments@[k as int]@);
                if k == 0 {
                    assert(t =~= seq![self.arguments@[k as int]@]);
                    assert(out@ =~= rendered(t[0]));
                } else {
                    assert(out@ =~= before + seq![' '] + rendered(t.last()));
                }
            }
            k = k + 1;
        }
        proof {
            assert(all.take(k as int) =~= all);
        }
        string_of(&out)
    }

    /// The command written back: its name, a space, and the text of its arguments.
    pub fn to_string(&self) -> (r: String)
        ensures
            self.original_arguments matches Some(o) ==> r@ == self.command@ + seq![' '] + o@,
            self.original_arguments is None ==> r@ == self.command@ + seq![' '] + joined(
                views(self.arguments@),
            ),
    {
        let arguments = self.arguments_string();
        let with_space = self.command.clone().concat(" ");
        proof {
            reveal_strlit(" ");
        }
        with_space.concat(arguments.as_str())
    }

    /// Reads a command: the trimmed text up to its first space names the command, and the
    /// rest, trimmed, holds the arguments.
    pub fn parse_command(text: &str) -> (r: Result<Joel, JoelError>)
        ensures
            command_of(text@).len() == 0 ==> r == Err::<Joel, JoelError>(JoelError::EmptyCommand),
            command_of(text@).len() > 0 ==> match arguments_of(rest_of(text@)) {
                Err(e) => r == Err::<Joel, JoelError>(e),
                Ok(args) => r matches Ok(joel) && joel.command@ == command_of(text@) && views(
                    joel.arguments@,
                ) == args && joel.original_arguments is Some && joel.original_arguments->0@
                    == rest_of(text@),
            },
    {
        let chars = chars_of(text);
        let (lo, k, rest_lo, rest_hi) = split_command(&chars);
        if k == lo {
            return Err(JoelError::EmptyCommand);
        }
        let rest = subvec(&chars, rest_lo, rest_hi);
        match read_arguments(&rest) {
            Err(e) => Err(e),
            Ok(arguments) => {
                let command = string_of(&subvec(&chars, lo, k));
                Ok(Joel { arguments, command, original_arguments: Some(string_of(&rest)) })
            },
        }
    }
}

/// `v[from..to]`, copied.
fn subvec(v: &Vec<char>, from: usize, to: usize) -> (r: Vec<char>)
    requires
        from <= to <= v@.len(),
    ensures
        r@ == v@.subrange(from as int, to as int),
{
    let mut r: Vec<char> = Vec::new();
    let mut i = from;
    while i < to
        invariant
            from <= i <= to <= v@.len(),
            r@ == v@.subrange(from as int, i as int),
        decreases to - i,
    {
        r.push(v[i]);
        i = i + 1;
        assert(r@ =~= v@.subrange(from as int, i as int));
    }
    r
}

/// Whether two texts hold the same characters.
fn same_text(a: &str, b: &str) -> (r: bool)
    ensures
        r == (a@ == b@),
{
    let n = a.unicode_len();
    if n != b.unicode_len() {
        return false;
    }
    let mut i: usize = 0;
    while i < n
        invariant
            n == a@.len() == b@.len(),
            0 <= i <= n,
            forall|j: int| 0 <= j < i ==> #[trigger] a@[j] == b@[j],
        decreases n - i,
    {
        if a.get_char(i) != b.get_char(i) {
            return false;
        }
        i = i + 1;
    }
    assert(a@ =~= b@);
    true
}

/// Two commands are equal when their names and arguments are; the text the arguments were
/// read from does not count.
impl PartialEq for Joel {
    fn eq(&self, other: &Joel) -> (r: bool) {
        if !(self.command == other.command) {
            return false;
        }
        let n = self.arguments.len();
        if n != other.arguments.len() {
            assert(views(self.arguments@).len() != views(other.arguments@).len());
            return false;
        }
        let mut i: usize = 0;
        while i < n
            invariant
                n == self.arguments@.len() == other.arguments@.len(),
                0 <= i <= n,
                self.command@ == other.command@,
                forall|j: int| 0 <= j < i ==> #[trigger] self.arguments@[j]@ == other.arguments@[j]@,
            decreases n - i,
        {
            if !(self.arguments[i] == other.arguments[i]) {
                assert(views(self.arguments@)[i as int] != views(other.arguments@)[i as int]);
                return false;
            }
            i = i + 1;
        }
        assert(views(self.arguments@) =~= views(other.arguments@));
        true
    }
}

impl vstd::std_specs::cmp::PartialEqSpecImpl for Joel {
    open spec fn obeys_eq_spec() -> bool {
        true
    }

    open spec fn eq_spec(&self, other: &Joel) -> bool {
        self.command@ == other.command@ && views(self.arguments@) == views(other.arguments@)
    }
}

/// A command equals a text that is its name.
impl<'a> PartialEq<&'a str> for Joel {
    fn eq(&self, other: &&'a str) -> (r: bool) {
        same_text(self.command.as_str(), *other)
    }
}

impl<'a> vstd::std_specs::cmp::PartialEqSpecImpl<&'a str> for Joel {
    open spec fn obeys_eq_spec() -> bool {
        true
    }

    open spec fn eq_spec(&self, other: &&'a str) -> bool {
        self.command@ == (*other)@
    }
}

impl std::str::FromStr for Joel {
    type Err = JoelError;

    fn from_str(text: &str) -> Result<Joel, JoelError> {
        Joel::parse_command(text)
    }
}

} // verus!
