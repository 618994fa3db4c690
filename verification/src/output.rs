//! What skim prints once it is done: the query, the command, the header, the
//! current item, the accept key and the selected items, each followed by the
//! output ending.
use vstd::prelude::*;

use crate::helper::item::{spec_strip_ansi, strip_ansi};
use crate::text::{push_str, string_push};

verus! {

/// A selected item as it is printed: its output text and its score.
#[derive(Debug, Clone)]
pub struct OutputItem {
    pub output: String,
    pub score: i32,
}

/// What a finished run of skim reports.
#[derive(Debug, Clone)]
pub struct SkimOutput {
    /// The key named by the final `accept` action, if it named one.
    pub accept_key: Option<String>,
    /// Whether skim was aborted.
    pub is_abort: bool,
    /// The query
    pub query: String,
    /// The command query
    pub cmd: String,
    /// The selected items.
    pub selected_items: Vec<OutputItem>,
    /// The output text of the current item
    pub current: Option<String>,
    /// The header
    pub header: String,
}

/// The command-line flags that decide how the output is printed.
#[derive(Debug, Clone, Copy, Default)]
pub struct OutputOptions {
    pub print_query: bool,
    pub print_cmd: bool,
    pub print_score: bool,
    pub print_header: bool,
    pub print_current: bool,
    pub print0: bool,
    pub ansi: bool,
    pub no_strip_ansi: bool,
}

/// How a [`SkimOutput`] is printed.
#[derive(Debug, Clone)]
pub struct BinOptions {
    pub output_ending: String,
    pub print_query: bool,
    pub print_cmd: bool,
    pub print_score: bool,
    pub print_header: bool,
    pub print_current: bool,
    pub strip_ansi: bool,
}

impl BinOptions {
    /// Build the output options from the command-line flags: the ending is a
    /// NUL with `print0` and a newline otherwise, and escape sequences are
    /// stripped when `ansi` is on and `no_strip_ansi` off.
    pub fn from_opts(opts: &OutputOptions) -> (r: BinOptions)
        ensures
            r.output_ending@ == if opts.print0 {
                seq!['\0']
            } else {
                seq!['\n']
            },
            r.print_query == opts.print_query,
            r.print_cmd == opts.print_cmd,
            r.print_score == opts.print_score,
            r.print_header == opts.print_header,
            r.print_current == opts.print_current,
            r.strip_ansi == (opts.ansi && !opts.no_strip_ansi),
    {
        let mut ending = String::new();
        string_push(&mut ending, if opts.print0 { '\0' } else { '\n' });
        BinOptions {
            output_ending: ending,
            print_query: opts.print_query,
            print_cmd: opts.print_cmd,
            print_score: opts.print_score,
            print_header: opts.print_header,
            print_current: opts.print_current,
            strip_ansi: opts.ansi && !opts.no_strip_ansi,
        }
    }
}

/// The decimal digit `d`.
pub open spec fn digit_char(d: int) -> char {
    if d == 0 {
        '0'
    } else if d == 1 {
        '1'
    } else if d == 2 {
        '2'
    } else if d == 3 {
        '3'
    } else if d == 4 {
        '4'
    } else if d == 5 {
        '5'
    } else if d == 6 {
        '6'
    } else if d == 7 {
        '7'
    } else if d == 8 {
        '8'
    } else {
        '9'
    }
}

/// The decimal digits of `n`.
pub open spec fn decimal_digits(n: nat) -> Seq<char>
    decreases n,
{
    if n < 10 {
        seq![digit_char(n as int)]
    } else {
        decimal_digits(n / 10).push(digit_char((n % 10) as int))
    }
}

/// How an integer is printed: a `-` before the digits of a negative one.
pub open spec fn int_text(x: int) -> Seq<char> {
    if x < 0 {
        seq!['-'] + decimal_digits((-x) as nat)
    } else {
        decimal_digits(x as nat)
    }
}

/// The printed lines of the selected items `items[..k]`.
#[verifier::opaque]
pub open spec fn items_text(items: Seq<OutputItem>, k: int, strip: bool, score: bool, end: Seq<char>) -> Seq<char>
    decreases k,
{
    if k <= 0 {
        Seq::empty()
    } else {
        let it = items[k - 1];
        let out = if strip {
            spec_strip_ansi(it.output@)
        } else {
            it.output@
        };
        items_text(items, k - 1, strip, score, end) + out + end + if score {
            int_text(it.score as int) + end
        } else {
            Seq::empty()
        }
    }
}

/// `s` followed by the ending when `on`, nothing otherwise.
pub open spec fn line_if(on: bool, s: Seq<char>, end: Seq<char>) -> Seq<char> {
    if on {
        s + end
    } else {
        Seq::empty()
    }
}

/// What is printed for a finished run: the query, the command and the header
/// when asked for, the current item (an empty line without one) when asked
/// for, the accept key when the run was accepted with one, then each selected
/// item (escape sequences stripped when asked), followed by its score when
/// asked for; every line ends with the output ending.
pub open spec fn spec_output(o: SkimOutput, opts: BinOptions) -> Seq<char> {
    let end = opts.output_ending@;
    line_if(opts.print_query, o.query@, end) + line_if(opts.print_cmd, o.cmd@, end) + line_if(
        opts.print_header,
        o.header@,
        end,
    ) + line_if(opts.print_current, current_text(o), end) + accept_text(o, end) + items_text(
        o.selected_items@,
        o.selected_items@.len() as int,
        opts.strip_ansi,
        opts.print_score,
        end,
    )
}

/// The text of the current item, empty without one.
pub open spec fn current_text(o: SkimOutput) -> Seq<char> {
    match o.current {
        Some(c) => c@,
        None => Seq::empty(),
    }
}

/// The accept key and the ending, when the run was accepted with a key.
pub open spec fn accept_text(o: SkimOutput, end: Seq<char>) -> Seq<char> {
    match o.accept_key {
        Some(k) => k@ + end,
        None => Seq::empty(),
    }
}

/// The character of the decimal digit `d`.
fn digit_of(d: u64) -> (r: char)
    requires
        d < 10,
    ensures
        r == digit_char(d as int),
{
    if d == 0 {
        '0'
    } else if d == 1 {
        '1'
    } else if d == 2 {
        '2'
    } else if d == 3 {
        '3'
    } else if d == 4 {
        '4'
    } else if d == 5 {
        '5'
    } else if d == 6 {
        '6'
    } else if d == 7 {
        '7'
    } else if d == 8 {
        '8'
    } else {
        '9'
    }
}

/// Appends the decimal digits of `n`.
fn push_digits(s: &mut String, n: u64)
    ensures
        final(s)@ == old(s)@ + decimal_digits(n as nat),
    decreases n,
{
    if n >= 10 {
        push_digits(s, n / 10);
    }
    string_push(s, digit_of(n % 10));
    proof {
        if n >= 10 {
            assert(decimal_digits(n as nat) == decimal_digits((n / 10) as nat).push(digit_char((n % 10) as int)));
        }
    }
}

/// Appends `x` as `{}` prints it.
fn push_int(s: &mut String, x: i32)
    ensures
        final(s)@ == old(s)@ + int_text(x as int),
{
    let ghost s0 = s@;
    if x < 0 {
        string_push(s, '-');
        let n: i64 = -(x as i64);
        push_digits(s, n as u64);
        assert(s@ =~= s0 + (seq!['-'] + decimal_digits((-x) as nat)));
    } else {
        push_digits(s, x as u64);
    }
}

/// Appends `s` and the ending when `on`.
fn push_line_if(out: &mut String, on: bool, s: &str, end: &str)
    ensures
        final(out)@ == old(out)@ + line_if(on, s@, end@),
{
    if on {
        push_str(out, s);
        push_str(out, end);
    } else {
        assert(old(out)@ + Seq::<char>::empty() =~= old(out)@);
    }
}

/// Appends the printed lines of the selected items.
fn push_items(out: &mut String, items: &Vec<OutputItem>, strip: bool, score: bool, end: &str)
    ensures
        final(out)@ == old(out)@ + items_text(items@, items@.len() as int, strip, score, end@),
{
    let ghost head = out@;
    proof {
        reveal(items_text);
        assert(head + Seq::<char>::empty() =~= head);
    }
    let mut k: usize = 0;
    while k < items.len()
        invariant
            k <= items@.len(),
            out@ == head + items_text(items@, k as int, strip, score, end@),
        decreases items@.len() - k,
    {
        let ghost before = out@;
        let it = &items[k];
        if strip {
            let (stripped, _) = strip_ansi(it.output.as_str());
            push_str(out, stripped.as_str());
        } else {
            push_str(out, it.output.as_str());
        }
        push_str(out, end);
        if score {
            push_int(out, it.score);
            push_str(out, end);
        }
        proof {
            reveal(items_text);
            let o = if strip {
                spec_strip_ansi(it.output@)
            } else {
                it.output@
            };
            let tail = if score {
                int_text(it.score as int) + end@
            } else {
                Seq::empty()
            };
            assert(out@ =~= before + o + end@ + tail);
            assert(items_text(items@, k + 1, strip, score, end@) == items_text(items@, k as int, strip, score, end@) + o
                + end@ + tail);
            assert(out@ =~= head + items_text(items@, k + 1, strip, score, end@));
        }
        k += 1;
    }
}

proof fn lemma_concat6(
    start: Seq<char>,
    p1: Seq<char>,
    p2: Seq<char>,
    p3: Seq<char>,
    p4: Seq<char>,
    p5: Seq<char>,
    p6: Seq<char>,
    a: Seq<char>,
    b: Seq<char>,
    c: Seq<char>,
    d: Seq<char>,
    e: Seq<char>,
    f: Seq<char>,
)
    requires
        a == start + p1,
        b == a + p2,
        c == b + p3,
        d == c + p4,
        e == d + p5,
        f == e + p6,
    ensures
        f == start + (p1 + p2 + p3 + p4 + p5 + p6),
{
    assert(f =~= start + (p1 + p2 + p3 + p4 + p5 + p6));
}

impl SkimOutput {
    /// Appends what is printed for this run to `out`: see `spec_output`.
    pub fn write_output(&self, out: &mut String, opts: &BinOptions)
        ensures
            final(out)@ == old(out)@ + spec_output(*self, *opts),
    {
        let ghost start = out@;
        let end = opts.output_ending.as_str();
        push_line_if(out, opts.print_query, self.query.as_str(), end);
        let ghost a = out@;
        push_line_if(out, opts.print_cmd, self.cmd.as_str(), end);
        let ghost b = out@;
        push_line_if(out, opts.print_header, self.header.as_str(), end);
        let ghost c = out@;
        let current = match &self.current {
            Some(cur) => cur.as_str(),
            None => "",
        };
        proof {
            reveal_strlit("");
            assert(current@ == current_text(*self));
        }
        push_line_if(out, opts.print_current, current, end);
        let ghost d = out@;
        match &self.accept_key {
            Some(key) => {
                push_str(out, key.as_str());
                push_str(out, end);
                assert(out@ =~= d + accept_text(*self, end@));
            },
            None => {
                assert(out@ =~= d + accept_text(*self, end@));
            },
        }
        let ghost e = out@;
        push_items(out, &self.selected_items, opts.strip_ansi, opts.print_score, end);
        proof {
            lemma_concat6(
                start,
                line_if(opts.print_query, self.query@, end@),
                line_if(opts.print_cmd, self.cmd@, end@),
                line_if(opts.print_header, self.header@, end@),
                line_if(opts.print_current, current_text(*self), end@),
                accept_text(*self, end@),
                items_text(self.selected_items@, self.selected_items@.len() as int, opts.strip_ansi, opts.print_score, end@),
                a,
                b,
                c,
                d,
                e,
                out@,
            );
        }
    }
}

} // verus!
