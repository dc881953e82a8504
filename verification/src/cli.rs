//! What the `yu` command decides: its arguments, its help, when the REPL waits for more
//! lines, and how an error is coloured.
use vstd::prelude::*;
use crate::lang::Lang;
use crate::text::{
    chars_of, is_whitespace, push_char, push_str, str_eq, substring, trim, trimmed, whitespace,
};

verus! {

/// The help text.
pub open spec fn spec_usage(lang: Lang) -> Seq<char> {
    lang.choose_text(
        "Yu — мова програмування українською та англійською\n\n\
         Використання:\n  yu                  інтерактивний режим\n  yu файл.yu          запустити програму\n  \
         yu run файл.yu      те саме\n  --svg файл.svg      зберегти малюнок\n  --lang en           помилки англійською\n  \
         --no-color          без кольорів\n  \
         --version           версія"@,
        "Yu — a programming language in Ukrainian and English\n\n\
         Usage:\n  yu                  interactive mode\n  yu file.yu          run a program\n  \
         yu run file.yu      the same\n  --svg file.svg      save the picture\n  --lang uk           messages in Ukrainian\n  \
         --no-color          no colours\n  \
         --version           version"@,
    )
}

/// The help text.
pub fn usage(lang: Lang) -> (r: &'static str)
    ensures
        r@ == spec_usage(lang),
{
    lang.pick(
        "Yu — мова програмування українською та англійською\n\n\
         Використання:\n  yu                  інтерактивний режим\n  yu файл.yu          запустити програму\n  \
         yu run файл.yu      те саме\n  --svg файл.svg      зберегти малюнок\n  --lang en           помилки англійською\n  \
         --no-color          без кольорів\n  \
         --version           версія",
        "Yu — a programming language in Ukrainian and English\n\n\
         Usage:\n  yu                  interactive mode\n  yu file.yu          run a program\n  \
         yu run file.yu      the same\n  --svg file.svg      save the picture\n  --lang uk           messages in Ukrainian\n  \
         --no-color          no colours\n  \
         --version           version",
    )
}

/// What `yu` was asked to do.
#[derive(Debug, PartialEq)]
pub enum Command {
    Repl,
    Run(String),
    Help,
    Version,
}

/// What `yu` was asked to do, as specifications see it.
pub enum SpecCommand {
    Repl,
    Run(Seq<char>),
    Help,
    Version,
}

/// The command line, read.
#[derive(Debug, PartialEq)]
pub struct Args {
    pub lang: Lang,
    pub color: bool,
    /// Where to save the picture, from `--svg`.
    pub svg: Option<String>,
    pub command: Command,
}

/// What the arguments have set so far.
pub struct ArgScan {
    pub lang: Lang,
    pub color: bool,
    pub help: bool,
    pub version: bool,
    pub svg: Option<Seq<char>>,
    pub files: Seq<Seq<char>>,
}

/// Reads the arguments from `i` on: `--lang` and a code, `--no-color`, `--svg` and a file
/// name, `-h` or `--help`, `-V` or `--version`, `run` before any file, a file, or else an
/// unknown option.
pub open spec fn scan_args(args: Seq<Seq<char>>, i: int, st: ArgScan) -> Result<ArgScan, Seq<char>>
    decreases args.len() + 1 - i,
{
    if i < 0 || i >= args.len() {
        Ok(st)
    } else {
        let a = args[i];
        if a == "--lang"@ {
            let code = if i + 1 < args.len() {
                args[i + 1]
            } else {
                seq![]
            };
            match Lang::spec_from_code(code) {
                Some(l) => scan_args(args, i + 2, ArgScan { lang: l, ..st }),
                None => Err("--lang: uk / en, не «"@ + code + "»"@),
            }
        } else if a == "--no-color"@ {
            scan_args(args, i + 1, ArgScan { color: false, ..st })
        } else if a == "--svg"@ {
            if i + 1 < args.len() && !(args[i + 1].len() > 0 && args[i + 1][0] == '-') {
                scan_args(args, i + 2, ArgScan { svg: Some(args[i + 1]), ..st })
            } else {
                Err(st.lang.choose_text("--svg: потрібна назва файлу"@, "--svg: a file name is needed"@))
            }
        } else if a == "-h"@ || a == "--help"@ {
            scan_args(args, i + 1, ArgScan { help: true, ..st })
        } else if a == "-V"@ || a == "--version"@ {
            scan_args(args, i + 1, ArgScan { version: true, ..st })
        } else if a == "run"@ && st.files.len() == 0 {
            scan_args(args, i + 1, st)
        } else if a.len() > 0 && a[0] == '-' {
            Err(st.lang.choose_text("невідомий параметр"@, "unknown option"@) + " "@ + a)
        } else {
            scan_args(args, i + 1, ArgScan { files: st.files.push(a), ..st })
        }
    }
}

/// The command the scanned arguments ask for; more than one file is refused.
pub open spec fn scanned_command(st: ArgScan) -> Result<SpecCommand, Seq<char>> {
    if st.help {
        Ok(SpecCommand::Help)
    } else if st.version {
        Ok(SpecCommand::Version)
    } else if st.files.len() == 0 {
        Ok(SpecCommand::Repl)
    } else if st.files.len() == 1 {
        Ok(SpecCommand::Run(st.files[0]))
    } else {
        Err(st.lang.choose_text("можна запускати один файл"@, "one file at a time"@))
    }
}

/// The language, whether to colour, where to save the picture, and the command; or what is
/// wrong with the arguments. Help wins over the version, the version over running; more than
/// one file is refused, and so is `--svg` without a program file.
pub open spec fn spec_parse_args(args: Seq<Seq<char>>) -> Result<
    (Lang, bool, Option<Seq<char>>, SpecCommand),
    Seq<char>,
> {
    let start = ArgScan {
        lang: Lang::Uk,
        color: true,
        help: false,
        version: false,
        svg: None,
        files: seq![],
    };
    match scan_args(args, 0, start) {
        Err(e) => Err(e),
        Ok(st) => match scanned_command(st) {
            Err(e) => Err(e),
            Ok(c) => if st.svg is Some && c is Repl {
                Err(st.lang.choose_text("--svg працює лише з файлом програми"@, "--svg needs a program file"@))
            } else {
                Ok((st.lang, st.color, st.svg, c))
            },
        },
    }
}

/// The view of an optional text.
pub open spec fn opt_view(o: Option<String>) -> Option<Seq<char>> {
    match o {
        Some(s) => Some(s@),
        None => None,
    }
}

/// The view of a command.
pub open spec fn command_view(c: Command) -> SpecCommand {
    match c {
        Command::Repl => SpecCommand::Repl,
        Command::Run(f) => SpecCommand::Run(f@),
        Command::Help => SpecCommand::Help,
        Command::Version => SpecCommand::Version,
    }
}

/// The texts of the arguments.
pub open spec fn args_view(args: Seq<String>) -> Seq<Seq<char>> {
    args.map_values(|a: String| a@)
}

/// Reads the command line (without the program's name).
pub fn parse_args(args: Vec<String>) -> (r: Result<Args, String>)
    ensures
        match r {
            Ok(a) => spec_parse_args(args_view(args@)) == Ok::<
                (Lang, bool, Option<Seq<char>>, SpecCommand),
                Seq<char>,
            >((a.lang, a.color, opt_view(a.svg), command_view(a.command))),
            Err(e) => spec_parse_args(args_view(args@)) == Err::<
                (Lang, bool, Option<Seq<char>>, SpecCommand),
                Seq<char>,
            >(e@),
        },
{
    let ghost v = args_view(args@);
    let mut lang = Lang::Uk;
    let mut color = true;
    let mut help = false;
    let mut version = false;
    let mut svg: Option<String> = None;
    let mut files: Vec<String> = Vec::new();
    let mut i: usize = 0;
    let ghost start = ArgScan {
        lang: Lang::Uk,
        color: true,
        help: false,
        version: false,
        svg: None,
        files: seq![],
    };
    proof {
        assert(args_view(files@) =~= Seq::<Seq<char>>::empty());
    }
    while i < args.len()
        invariant
            v == args_view(args@),
            start == (ArgScan {
                lang: Lang::Uk,
                color: true,
                help: false,
                version: false,
                svg: None,
                files: seq![],
            }),
            i <= args.len() + 1,
            scan_args(v, 0, start) == scan_args(
                v,
                i as int,
                ArgScan { lang, color, help, version, svg: opt_view(svg), files: args_view(files@) },
            ),
        decreases args.len() + 1 - i,
    {
        let a = args[i].as_str();
        if str_eq(a, "--lang") {
            let code: &str = if i + 1 < args.len() {
                args[i + 1].as_str()
            } else {
                ""
            };
            proof {
                if !(i + 1 < args.len()) {
                    reveal_strlit("");
                    reveal_strlit("uk");
                    reveal_strlit("ua");
                    reveal_strlit("en");
                    assert(code@ =~= Seq::<char>::empty());
                    assert(Lang::spec_from_code(code@) is None);
                }
            }
            match Lang::from_code(code) {
                Some(l) => {
                    lang = l;
                },
                None => {
                    let mut m = String::new();
                    push_str(&mut m, "--lang: uk / en, не «");
                    push_str(&mut m, code);
                    push_str(&mut m, "»");
                    assert(m@ =~= "--lang: uk / en, не «"@ + code@ + "»"@);
                    return Err(m);
                },
            }
            if i + 1 < args.len() {
                i = i + 2;
            } else {
                i = args.len();
            }
        } else if str_eq(a, "--no-color") {
            color = false;
            i = i + 1;
        } else if str_eq(a, "--svg") {
            let named = if i + 1 < args.len() {
                let f = chars_of(args[i + 1].as_str());
                !(f.len() > 0 && f[0] == '-')
            } else {
                false
            };
            if !named {
                let mut m = String::new();
                let word = lang.pick("--svg: потрібна назва файлу", "--svg: a file name is needed");
                push_str(&mut m, word);
                assert(m@ =~= lang.choose_text(
                    "--svg: потрібна назва файлу"@,
                    "--svg: a file name is needed"@,
                ));
                return Err(m);
            }
            svg = Some(args[i + 1].clone());
            i = i + 2;
        } else if str_eq(a, "-h") || str_eq(a, "--help") {
            help = true;
            i = i + 1;
        } else if str_eq(a, "-V") || str_eq(a, "--version") {
            version = true;
            i = i + 1;
        } else if str_eq(a, "run") && files.len() == 0 {
            i = i + 1;
        } else {
            let cs = chars_of(a);
            if cs.len() > 0 && cs[0] == '-' {
                let mut m = String::new();
                let word = lang.pick("невідомий параметр", "unknown option");
                push_str(&mut m, word);
                push_str(&mut m, " ");
                push_str(&mut m, a);
                assert(word@ == lang.choose_text("невідомий параметр"@, "unknown option"@));
                assert(m@ =~= lang.choose_text("невідомий параметр"@, "unknown option"@) + " "@ + a@);
                return Err(m);
            }
            let ghost before = files@;
            files.push(args[i].clone());
            proof {
                assert(args_view(files@) =~= args_view(before).push(v[i as int]));
            }
            i = i + 1;
        }
    }
    let command = if help {
        Command::Help
    } else if version {
        Command::Version
    } else if files.len() == 0 {
        Command::Repl
    } else if files.len() == 1 {
        let f = files.pop().unwrap();
        Command::Run(f)
    } else {
        let mut m = String::new();
        let word = lang.pick("можна запускати один файл", "one file at a time");
        push_str(&mut m, word);
        assert(word@ == lang.choose_text("можна запускати один файл"@, "one file at a time"@));
        assert(m@ =~= word@);
        return Err(m);
    };
    let repl = match command {
        Command::Repl => true,
        _ => false,
    };
    if svg.is_some() && repl {
        let mut m = String::new();
        let word = lang.pick("--svg працює лише з файлом програми", "--svg needs a program file");
        push_str(&mut m, word);
        assert(m@ =~= lang.choose_text(
            "--svg працює лише з файлом програми"@,
            "--svg needs a program file"@,
        ));
        return Err(m);
    }
    Ok(Args { lang, color, svg, command })
}

/// Where the first line's code ends in `s`: at its first line break or `#`.
pub open spec fn code_end(s: Seq<char>, k: int) -> int
    decreases s.len() - k,
{
    if k < 0 || k >= s.len() || s[k] == '\n' || s[k] == '#' {
        k
    } else {
        code_end(s, k + 1)
    }
}

/// The last character of `s` before index `k` that is not white space, if any.
pub open spec fn last_visible(s: Seq<char>, k: int) -> Option<char>
    decreases k,
{
    if k <= 0 || k > s.len() {
        None
    } else if !whitespace(s[k - 1]) {
        Some(s[k - 1])
    } else {
        last_visible(s, k - 1)
    }
}

/// The first line, without its comment, ends with `:` (white space after it aside).
pub open spec fn spec_opens_block(s: Seq<char>) -> bool {
    last_visible(s, code_end(s, 0)) == Some(':')
}

/// A buffer whose first line ends with `:` is a block; the REPL waits for an empty line.
pub fn opens_block(buffer: &str) -> (r: bool)
    ensures
        r == spec_opens_block(buffer@),
{
    let cs = chars_of(buffer);
    let ghost s = buffer@;
    let mut e: usize = 0;
    while e < cs.len() && cs[e] != '\n' && cs[e] != '#'
        invariant
            cs@ == s,
            e <= s.len(),
            code_end(s, 0) == code_end(s, e as int),
        decreases s.len() - e,
    {
        e += 1;
    }
    let mut k = e;
    while k > 0 && is_whitespace(cs[k - 1])
        invariant
            cs@ == s,
            k <= e <= s.len(),
            code_end(s, 0) == e,
            last_visible(s, e as int) == last_visible(s, k as int),
        decreases k,
    {
        k -= 1;
    }
    k > 0 && cs[k - 1] == ':'
}

/// The words that leave the REPL when typed at its first prompt.
pub open spec fn quit_word(w: Seq<char>) -> bool {
    w == "вийти"@ || w == "exit"@ || w == "quit"@
}

/// What the REPL does after a line was typed.
#[derive(Debug, PartialEq, Eq)]
pub enum ReplStep {
    /// Leave.
    Quit,
    /// A block is open: read another line.
    More,
    /// Only blank lines came: read the next one.
    Skip,
    /// Run this source.
    Run(String),
}

/// Takes one line (line break and trailing white space already gone) into the REPL's
/// buffer. A quit word at the first prompt leaves; a line that opens or continues a block
/// asks for more, until an empty line ends it; otherwise the buffer is emptied and, unless
/// it held only white space, run.
pub fn repl_step(buffer: &mut String, line: &str) -> (r: ReplStep)
    ensures
        ({
            let b = old(buffer)@ + line@ + seq!['\n'];
            if old(buffer)@.len() == 0 && quit_word(trimmed(line@)) {
                r is Quit && final(buffer)@ == old(buffer)@
            } else if spec_opens_block(b) && line@.len() > 0 {
                r is More && final(buffer)@ == b
            } else if trimmed(b).len() == 0 {
                r is Skip && final(buffer)@.len() == 0
            } else {
                r matches ReplStep::Run(src) && src@ == b && final(buffer)@.len() == 0
            }
        }),
        old(buffer)@.len() == 0 && (trimmed(line@) == "вийти"@ || trimmed(line@) == "exit"@
            || trimmed(line@) == "quit"@) ==> r is Quit && final(buffer)@.len() == 0,
        r is Quit ==> old(buffer)@.len() == 0 && (trimmed(line@) == "вийти"@ || trimmed(line@)
            == "exit"@ || trimmed(line@) == "quit"@),
{
    let first = chars_of(buffer.as_str()).len() == 0;
    if first {
        let t = trim(line);
        if str_eq(t, "вийти") || str_eq(t, "exit") || str_eq(t, "quit") {
            return ReplStep::Quit;
        }
    }
    let ghost b = old(buffer)@ + line@ + seq!['\n'];
    push_str(buffer, line);
    push_char(buffer, '\n');
    assert(buffer@ =~= b);
    let line_empty = chars_of(line).len() == 0;
    if opens_block(buffer.as_str()) && !line_empty {
        return ReplStep::More;
    }
    let mut src = String::new();
    std::mem::swap(&mut src, buffer);
    let blank = chars_of(trim(src.as_str())).len() == 0;
    if blank {
        ReplStep::Skip
    } else {
        ReplStep::Run(src)
    }
}

/// The first line break in `s` at or after `k`, or the end.
pub open spec fn next_nl(s: Seq<char>, k: int) -> int
    decreases s.len() - k,
{
    if k >= s.len() || s[k] == '\n' {
        k
    } else {
        next_nl(s, k + 1)
    }
}

pub proof fn lemma_next_nl(s: Seq<char>, k: int)
    ensures
        k <= next_nl(s, k),
        k <= s.len() ==> next_nl(s, k) <= s.len(),
        next_nl(s, k) < s.len() ==> s[next_nl(s, k)] == '\n',
    decreases s.len() - k,
{
    if !(k >= s.len() || s[k] == '\n') {
        lemma_next_nl(s, k + 1);
    }
}

/// A line without the `\r` of a `\r\n` ending.
pub open spec fn strip_cr(l: Seq<char>) -> Seq<char> {
    if l.len() > 0 && l.last() == '\r' {
        l.drop_last()
    } else {
        l
    }
}

/// The lines of `s` from index `k`, as `str::lines` gives them: split at line breaks, a
/// `\r` right before a break dropped (a `\r` at the very end stays), no empty line after a
/// final break.
pub open spec fn lines_from(s: Seq<char>, k: int) -> Seq<Seq<char>>
    decreases s.len() + 1 - k,
{
    if k < 0 || k >= s.len() {
        seq![]
    } else {
        let e = next_nl(s, k);
        proof {
            lemma_next_nl(s, k);
        }
        let l = s.subrange(k, e);
        seq![if e < s.len() { strip_cr(l) } else { l }] + lines_from(s, e + 1)
    }
}

/// Lines joined by line breaks.
pub open spec fn join_lines(ls: Seq<Seq<char>>) -> Seq<char>
    decreases ls.len(),
{
    if ls.len() == 0 {
        seq![]
    } else if ls.len() == 1 {
        ls[0]
    } else {
        join_lines(ls.drop_last()) + "\n"@ + ls.last()
    }
}

/// `s` between an ANSI colour code and the reset, when colours are on.
pub open spec fn wrapped(on: bool, code: Seq<char>, s: Seq<char>) -> Seq<char> {
    if on {
        "\x1b["@ + code + "m"@ + s + "\x1b[0m"@
    } else {
        s
    }
}

/// Line `i` of a rendered error: the header red, the source line plain, the carets yellow,
/// the hint cyan.
pub open spec fn paint_line(on: bool, i: int, l: Seq<char>) -> Seq<char> {
    if i == 0 {
        wrapped(on, "1;31"@, l)
    } else if i == 1 {
        l
    } else if i == 2 {
        wrapped(on, "33"@, l)
    } else {
        wrapped(on, "36"@, l)
    }
}

/// Every line painted by its place.
pub open spec fn painted(on: bool, ls: Seq<Seq<char>>) -> Seq<Seq<char>> {
    Seq::new(ls.len(), |i: int| paint_line(on, i, ls[i]))
}

/// ANSI colours for error messages; off for pipes, `NO_COLOR` and `--no-color`.
#[derive(Clone, Copy)]
pub struct Paint {
    on: bool,
}

impl Paint {
    /// Whether colours are on.
    pub closed spec fn is_on(&self) -> bool {
        self.on
    }

    /// Colours on when `wanted` (the terminal decides whether it can show them).
    pub fn new(wanted: bool) -> (p: Paint)
        ensures
            p.is_on() == wanted,
    {
        Paint { on: wanted }
    }

    fn wrap(&self, code: &str, s: &str, out: &mut String)
        ensures
            final(out)@ == old(out)@ + wrapped(self.on, code@, s@),
    {
        if self.on {
            push_str(out, "\x1b[");
            push_str(out, code);
            push_str(out, "m");
            push_str(out, s);
            push_str(out, "\x1b[0m");
            proof {
                reveal_strlit("\x1b[");
                reveal_strlit("m");
                reveal_strlit("\x1b[0m");
            }
        } else {
            push_str(out, s);
        }
    }

    /// A cyan line with a tip.
    pub fn hint(&self, line: &str) -> (r: String)
        ensures
            r@ == wrapped(self.is_on(), "36"@, line@),
    {
        let mut out = String::new();
        self.wrap("36", line, &mut out);
        proof {
            assert(out@ =~= wrapped(self.on, "36"@, line@));
        }
        out
    }

    /// Red header, plain source line, yellow carets, cyan hint.
    pub fn diagnostic(&self, rendered: &str) -> (r: String)
        ensures
            r@ == join_lines(painted(self.is_on(), lines_from(rendered@, 0))),
    {
        let ghost s = rendered@;
        let cs = chars_of(rendered);
        let n = cs.len();
        let mut out = String::new();
        let mut k: usize = 0;
        let mut count: usize = 0;
        let ghost mut done: Seq<Seq<char>> = seq![];
        while k < n
            invariant
                cs@ == s,
                s == rendered@,
                n == s.len(),
                k <= n,
                count == done.len(),
                count <= k,
                lines_from(s, 0) == done + lines_from(s, k as int),
                out@ == join_lines(painted(self.on, done)),
            decreases n - k,
        {
            let mut e = k;
            while e < n && cs[e] != '\n'
                invariant
                    cs@ == s,
                    s == rendered@,
                    n == s.len(),
                    k < n,
                    k <= e <= n,
                    next_nl(s, k as int) == next_nl(s, e as int),
                decreases n - e,
            {
                e += 1;
            }
            let mut stop = e;
            if e < n && stop > k && cs[stop - 1] == '\r' {
                stop = stop - 1;
            }
            let line = substring(rendered, k, stop);
            proof {
                assert(line@ =~= (if e < n {
                    strip_cr(s.subrange(k as int, e as int))
                } else {
                    s.subrange(k as int, e as int)
                }));
                assert(lines_from(s, k as int) =~= seq![line@] + lines_from(s, e + 1));
            }
            let ghost before = out@;
            if count > 0 {
                push_char(&mut out, '\n');
            }
            if count == 0 {
                self.wrap("1;31", line, &mut out);
            } else if count == 1 {
                push_str(&mut out, line);
            } else if count == 2 {
                self.wrap("33", line, &mut out);
            } else {
                self.wrap("36", line, &mut out);
            }
            proof {
                let nd = done.push(line@);
                assert(painted(self.on, nd).drop_last() =~= painted(self.on, done));
                assert(painted(self.on, nd).last() == paint_line(self.on, count as int, line@));
                if count > 0 {
                    reveal_strlit("\n");
                    assert(out@ =~= join_lines(painted(self.on, done)) + "\n"@ + paint_line(
                        self.on,
                        count as int,
                        line@,
                    ));
                } else {
                    assert(painted(self.on, nd) =~= seq![paint_line(self.on, 0, line@)]);
                }
                assert(done + lines_from(s, k as int) =~= nd + lines_from(s, e + 1));
                done = nd;
            }
            count = count + 1;
            if e < n {
                k = e + 1;
            } else {
                k = n;
                proof {
                    assert(lines_from(s, e + 1) =~= Seq::<Seq<char>>::empty());
                }
            }
        }
        proof {
            assert(lines_from(s, k as int) =~= Seq::<Seq<char>>::empty());
            assert(done + Seq::<Seq<char>>::empty() =~= done);
        }
        out
    }
}

} // verus!
