//! The tokenizer and the incremental compiler for the Forth-like language.
use vstd::prelude::*;
use vstd::string::StrSliceExecFns;

use crate::error::ForthError;
use crate::error::ForthErrorView;
use crate::stack_machine::GasLimit;
use crate::stack_machine::MachineView;
use crate::stack_machine::Opcode;
use crate::stack_machine::RunState;
use crate::stack_machine::StackMachine;
use crate::stack_machine::run_n;
use vstd::string::StringExecFns;

verus! {

/// The lexical tokens of the language.
#[derive(Debug, PartialEq)]
pub enum Token {
    Number(i64),
    Command(String),
    Colon(String),
    SemiColon,
    End,
    Error(String),
}

/// Mathematical model of a `Token`: string payloads become character
/// sequences.
pub ghost enum TokenView {
    Number(i64),
    Command(Seq<char>),
    Colon(Seq<char>),
    SemiColon,
    End,
    Error(Seq<char>),
}

impl View for Token {
    type V = TokenView;

    open spec fn view(&self) -> TokenView {
        match self {
            Token::Number(n) => TokenView::Number(*n),
            Token::Command(s) => TokenView::Command(s@),
            Token::Colon(s) => TokenView::Colon(s@),
            Token::SemiColon => TokenView::SemiColon,
            Token::End => TokenView::End,
            Token::Error(s) => TokenView::Error(s@),
        }
    }
}

/// The views of a sequence of tokens.
pub open spec fn token_views(ts: Seq<Token>) -> Seq<TokenView> {
    ts.map_values(|t: Token| t@)
}

/// Whether a character is ASCII whitespace: space, tab, line feed, form feed
/// or carriage return.  Source text splits into words on these.
pub open spec fn is_ascii_ws(c: char) -> bool {
    c == ' ' || c == '\t' || c == '\n' || c == '\x0C' || c == '\r'
}

/// Whether a character is an ASCII decimal digit.
pub open spec fn is_digit_char(c: char) -> bool {
    48 <= c as u32 <= 57
}

/// The numeric value of an ASCII decimal digit.
pub open spec fn digit_val(c: char) -> int {
    c as u32 - 48
}

/// The value of a string of decimal digits, most significant first.
pub open spec fn digits_value(s: Seq<char>) -> int
    decreases s.len(),
{
    if s.len() == 0 {
        0
    } else {
        digits_value(s.drop_last()) * 10 + digit_val(s.last())
    }
}

/// Whether every character of a string is a decimal digit.
pub open spec fn all_digits(s: Seq<char>) -> bool {
    forall|i: int| 0 <= i < s.len() ==> is_digit_char(#[trigger] s[i])
}

/// What parsing a word as a signed 64-bit decimal integer yields: an optional
/// sign, then one or more digits, and the value must fit the type; anything
/// else is no number.
pub open spec fn spec_parse_i64(s: Seq<char>) -> Option<i64> {
    let neg = s.len() > 0 && s[0] == '-';
    let signed = s.len() > 0 && (s[0] == '-' || s[0] == '+');
    let ds = if signed {
        s.subrange(1, s.len() as int)
    } else {
        s
    };
    if ds.len() == 0 || !all_digits(ds) {
        None
    } else {
        let v = digits_value(ds);
        if neg {
            if -v >= i64::MIN {
                Some((-v) as i64)
            } else {
                None
            }
        } else {
            if v <= i64::MAX {
                Some(v as i64)
            } else {
                None
            }
        }
    }
}

/// A digit string's value is never negative.
proof fn lemma_digits_value_nonneg(s: Seq<char>)
    requires
        all_digits(s),
    ensures
        digits_value(s) >= 0,
    decreases s.len(),
{
    if s.len() > 0 {
        assert(all_digits(s.drop_last()));
        lemma_digits_value_nonneg(s.drop_last());
    }
}

/// A digit string is worth at least as much as any of its prefixes.
proof fn lemma_digits_value_prefix(s: Seq<char>, i: int)
    requires
        all_digits(s),
        0 <= i <= s.len(),
    ensures
        digits_value(s.subrange(0, i)) <= digits_value(s),
    decreases s.len() - i,
{
    if i == s.len() {
        assert(s.subrange(0, i) =~= s);
    } else {
        assert(s.subrange(0, s.len() - 1) =~= s.drop_last());
        assert(all_digits(s.drop_last()));
        lemma_digits_value_prefix(s.drop_last(), i);
        assert(s.drop_last().subrange(0, i) =~= s.subrange(0, i));
        lemma_digits_value_nonneg(s.drop_last());
    }
}

/// Parses a word as a signed 64-bit decimal integer, exactly as
/// `spec_parse_i64` says: an optional sign, one or more digits, and the value
/// must fit.
fn parse_i64(s: &str) -> (r: Option<i64>)
    ensures
        r == spec_parse_i64(s@),
{
    let n = s.unicode_len();
    if n == 0 {
        return None;
    }
    let c0 = s.get_char(0);
    let neg = c0 == '-';
    let signed = c0 == '-' || c0 == '+';
    let start: usize = if signed {
        1
    } else {
        0
    };
    if start == n {
        return None;
    }
    let ghost ds = if signed {
        s@.subrange(1, s@.len() as int)
    } else {
        s@
    };
    let mut acc: i64 = 0;
    let mut i: usize = start;
    while i < n
        invariant
            start <= i <= n,
            n == s@.len(),
            n > 0,
            signed == (s@[0] == '-' || s@[0] == '+'),
            neg == (s@[0] == '-'),
            start == if signed { 1int } else { 0int },
            start < n,
            ds == if signed { s@.subrange(1, s@.len() as int) } else { s@ },
            ds.len() == n - start,
            forall|j: int| 0 <= j < i - start ==> is_digit_char(#[trigger] ds[j]),
            acc <= 0,
            acc == -digits_value(ds.subrange(0, i - start)),
        decreases n - i,
    {
        let c = s.get_char(i);
        let u = c as u32;
        if u < 48 || u > 57 {
            proof {
                assert(ds[i - start] == c);
                assert(!all_digits(ds));
            }
            return None;
        }
        let d = (u - 48) as i64;
        let acc10 = match acc.checked_mul(10) {
            Some(a) => a,
            None => {
                proof {
                    lemma_overflow_means_none(ds, i - start + 1, (i - start) as int, d as int, s@);
                }
                return None;
            }
        };
        let next = match acc10.checked_sub(d) {
            Some(a) => a,
            None => {
                proof {
                    lemma_overflow_means_none(ds, i - start + 1, (i - start) as int, d as int, s@);
                }
                return None;
            }
        };
        proof {
            assert(ds.subrange(0, i - start + 1).drop_last() =~= ds.subrange(0, i - start));
            assert(ds.subrange(0, i - start + 1).last() == c);
        }
        acc = next;
        i = i + 1;
    }
    proof {
        assert(ds.subrange(0, ds.len() as int) =~= ds);
        assert(all_digits(ds));
    }
    if neg {
        Some(acc)
    } else {
        if acc == i64::MIN {
            None
        } else {
            Some(-acc)
        }
    }
}

/// One character's effect on the whitespace splitter: whitespace closes the
/// word in progress, any other character extends it.
pub open spec fn split_step(acc: (Seq<Seq<char>>, Seq<char>), c: char) -> (
    Seq<Seq<char>>,
    Seq<char>,
) {
    if is_ascii_ws(c) {
        if acc.1.len() > 0 {
            (acc.0.push(acc.1), Seq::<char>::empty())
        } else {
            acc
        }
    } else {
        (acc.0, acc.1.push(c))
    }
}

/// The splitter's state after the first `i` characters: the words closed so
/// far and the word still in progress.
pub open spec fn split_run(s: Seq<char>, i: int) -> (Seq<Seq<char>>, Seq<char>)
    decreases i,
{
    if i <= 0 {
        (Seq::<Seq<char>>::empty(), Seq::<char>::empty())
    } else {
        split_step(split_run(s, i - 1), s[i - 1])
    }
}

/// The words of a string: its maximal runs of non-whitespace characters, in
/// order.
pub open spec fn spec_split_words(s: Seq<char>) -> Seq<Seq<char>> {
    let end = split_run(s, s.len() as int);
    if end.1.len() > 0 {
        end.0.push(end.1)
    } else {
        end.0
    }
}

/// The views of a sequence of words.
pub open spec fn word_views(ws: Seq<String>) -> Seq<Seq<char>> {
    ws.map_values(|w: String| w@)
}

/// Splits source text into its whitespace-separated words.
fn split_words(s: &str) -> (r: Vec<String>)
    ensures
        word_views(r@) == spec_split_words(s@),
{
    let n = s.unicode_len();
    let mut words: Vec<String> = Vec::new();
    let mut word_start: usize = 0;
    let mut i: usize = 0;
    while i < n
        invariant
            word_start <= i <= n,
            n == s@.len(),
            split_run(s@, i as int) == (word_views(words@), s@.subrange(
                word_start as int,
                i as int,
            )),
        decreases n - i,
    {
        let c = s.get_char(i);
        let ghost pre_words = words@;
        if c == ' ' || c == '\t' || c == '\n' || c == '\x0C' || c == '\r' {
            if word_start < i {
                let w = s.substring_char(word_start, i).to_owned();
                words.push(w);
                proof {
                    assert(word_views(words@) =~= word_views(pre_words).push(
                        s@.subrange(word_start as int, i as int),
                    ));
                }
            }
            word_start = i + 1;
            proof {
                assert(s@.subrange(word_start as int, i + 1) =~= Seq::<char>::empty());
            }
        } else {
            proof {
                assert(s@.subrange(word_start as int, i + 1) =~= s@.subrange(
                    word_start as int,
                    i as int,
                ).push(s@[i as int]));
            }
        }
        i = i + 1;
    }
    if word_start < n {
        let ghost pre_words = words@;
        let w = s.substring_char(word_start, n).to_owned();
        words.push(w);
        proof {
            assert(s@.subrange(word_start as int, n as int) == split_run(s@, s@.len() as int).1);
            assert(word_views(words@) =~= word_views(pre_words).push(
                s@.subrange(word_start as int, n as int),
            ));
        }
    }
    words
}

/// Whether a word is exactly the one-character string `c`.
fn is_single_char(w: &String, c: char) -> (r: bool)
    ensures
        r == (w@ == seq![c]),
{
    proof {
        if w@.len() == 1 && w@[0] == c {
            assert(w@ =~= seq![c]);
        }
    }
    w.as_str().unicode_len() == 1 && w.as_str().get_char(0) == c
}

/// The tokens of a word sequence from position `i` on.  A word that parses as
/// a signed 64-bit integer is a number token; a lone `:` wraps the following
/// word as a definition header, and it is a syntax error if no word follows;
/// a lone `;` closes a definition; any other word is a command carrying its
/// text.
pub open spec fn spec_tokenize_words(ws: Seq<Seq<char>>, i: int) -> Result<Seq<TokenView>, ()>
    decreases ws.len() - i,
{
    if i >= ws.len() {
        Ok(Seq::<TokenView>::empty())
    } else {
        let w = ws[i];
        if spec_parse_i64(w) is Some {
            match spec_tokenize_words(ws, i + 1) {
                Ok(rest) => Ok(seq![TokenView::Number(spec_parse_i64(w)->Some_0)] + rest),
                Err(e) => Err(e),
            }
        } else if w == seq![':'] {
            if i + 1 < ws.len() {
                match spec_tokenize_words(ws, i + 2) {
                    Ok(rest) => Ok(seq![TokenView::Colon(ws[i + 1])] + rest),
                    Err(e) => Err(e),
                }
            } else {
                Err(())
            }
        } else if w == seq![';'] {
            match spec_tokenize_words(ws, i + 1) {
                Ok(rest) => Ok(seq![TokenView::SemiColon] + rest),
                Err(e) => Err(e),
            }
        } else {
            match spec_tokenize_words(ws, i + 1) {
                Ok(rest) => Ok(seq![TokenView::Command(w)] + rest),
                Err(e) => Err(e),
            }
        }
    }
}

/// What tokenizing source text yields: split into whitespace-separated words,
/// then classify each word.  The only error is a `:` with no word after it.
pub open spec fn spec_tokenize(s: Seq<char>) -> Result<Seq<TokenView>, ()> {
    spec_tokenize_words(spec_split_words(s), 0)
}

/// If one more digit would push the accumulated value past 2^63, the whole
/// word's value is past it too, so the parse yields nothing for either sign.
proof fn lemma_overflow_means_none(ds: Seq<char>, upto: int, done: int, d: int, s: Seq<char>)
    requires
        0 <= done < ds.len(),
        upto == done + 1,
        forall|j: int| 0 <= j < upto ==> is_digit_char(#[trigger] ds[j]),
        d == digit_val(ds[done]),
        digits_value(ds.subrange(0, done)) * 10 + d > 0x8000_0000_0000_0000,
    ensures
        all_digits(ds) ==> digits_value(ds) > 0x8000_0000_0000_0000,
{
    if all_digits(ds) {
        assert(ds.subrange(0, upto).drop_last() =~= ds.subrange(0, done));
        assert(ds.subrange(0, upto).last() == ds[done]);
        assert(digits_value(ds.subrange(0, upto)) == digits_value(ds.subrange(0, done)) * 10 + d);
        lemma_digits_value_prefix(ds, upto);
    }
}

/// The address a name resolves to in a word table, searching from the most
/// recent entry backwards, so that a redefinition shadows older entries for
/// future compilations only.
pub open spec fn word_lookup(ws: Seq<(Seq<char>, usize)>, name: Seq<char>) -> Option<usize>
    decreases ws.len(),
{
    if ws.len() == 0 {
        None
    } else if ws.last().0 == name {
        Some(ws.last().1)
    } else {
        word_lookup(ws.drop_last(), name)
    }
}

/// Law: defining a word shadows earlier entries for its own name only.
/// After a definition is recorded, the name resolves to the new address,
/// every other name resolves as before — and code compiled earlier is
/// untouched, since calls are baked in as absolute addresses at compile time.
pub proof fn lemma_word_lookup_after_define(
    ws: Seq<(Seq<char>, usize)>,
    name: Seq<char>,
    addr: usize,
    other: Seq<char>,
)
    ensures
        word_lookup(ws.push((name, addr)), name) == Some(addr),
        other != name ==> word_lookup(ws.push((name, addr)), other) == word_lookup(ws, other),
{
    assert(ws.push((name, addr)).drop_last() =~= ws);
}

/// The fixed opcode expansion of an intrinsic word, if the name is one.
pub open spec fn spec_intrinsic(name: Seq<char>) -> Option<Seq<Opcode>> {
    if name == "POP"@ {
        Some(seq![Opcode::POP])
    } else if name == "SWAP"@ {
        Some(seq![Opcode::SWAP])
    } else if name == "ADD"@ {
        Some(seq![Opcode::ADD])
    } else if name == "SUB"@ {
        Some(seq![Opcode::SUB])
    } else if name == "MUL"@ {
        Some(seq![Opcode::MUL])
    } else if name == "DIV"@ {
        Some(seq![Opcode::DIV])
    } else if name == "DUP"@ {
        Some(seq![Opcode::DUP])
    } else if name == "TRAP"@ {
        Some(seq![Opcode::TRAP])
    } else if name == "INC"@ {
        Some(seq![Opcode::LDI(1i64), Opcode::ADD])
    } else if name == "DEC"@ {
        Some(seq![Opcode::LDI(-1i64), Opcode::ADD])
    } else {
        None
    }
}

/// The fixed opcode expansion of an intrinsic word, exactly as
/// `spec_intrinsic` says.
fn intrinsic_opcodes(name: &String) -> (r: Option<Vec<Opcode>>)
    ensures
        match r {
            Some(ops) => spec_intrinsic(name@) == Some(ops@),
            None => spec_intrinsic(name@) is None,
        },
{
    if *name == String::from_str("POP") {
        Some(vec![Opcode::POP])
    } else if *name == String::from_str("SWAP") {
        Some(vec![Opcode::SWAP])
    } else if *name == String::from_str("ADD") {
        Some(vec![Opcode::ADD])
    } else if *name == String::from_str("SUB") {
        Some(vec![Opcode::SUB])
    } else if *name == String::from_str("MUL") {
        Some(vec![Opcode::MUL])
    } else if *name == String::from_str("DIV") {
        Some(vec![Opcode::DIV])
    } else if *name == String::from_str("DUP") {
        Some(vec![Opcode::DUP])
    } else if *name == String::from_str("TRAP") {
        Some(vec![Opcode::TRAP])
    } else if *name == String::from_str("INC") {
        Some(vec![Opcode::LDI(1), Opcode::ADD])
    } else if *name == String::from_str("DEC") {
        Some(vec![Opcode::LDI(-1), Opcode::ADD])
    } else {
        None
    }
}

/// The views of a word table's entries.
pub open spec fn table_views(ws: Seq<(String, usize)>) -> Seq<(Seq<char>, usize)> {
    ws.map_values(|p: (String, usize)| (p.0@, p.1))
}

/// Looks a name up in a word table, most recent entry first, exactly as
/// `word_lookup` says.
fn table_lookup(ws: &Vec<(String, usize)>, name: &String) -> (r: Option<usize>)
    ensures
        r == word_lookup(table_views(ws@), name@),
{
    let mut i: usize = ws.len();
    proof {
        assert(table_views(ws@).subrange(0, ws@.len() as int) =~= table_views(ws@));
    }
    while i > 0
        invariant
            i <= ws.len(),
            word_lookup(table_views(ws@), name@) == word_lookup(
                table_views(ws@).subrange(0, i as int),
                name@,
            ),
        decreases i,
    {
        let ghost pre = table_views(ws@).subrange(0, i as int);
        i = i - 1;
        if ws[i].0 == *name {
            proof {
                assert(pre.last() == (ws@[i as int].0@, ws@[i as int].1));
            }
            return Some(ws[i].1);
        }
        proof {
            assert(pre.drop_last() =~= table_views(ws@).subrange(0, i as int));
        }
    }
    proof {
        assert(table_views(ws@).subrange(0, 0) =~= Seq::<(Seq<char>, usize)>::empty());
    }
    None
}

/// The incremental compiler: a machine to run compiled code on, a table of
/// defined words and the high-water mark that separates committed word
/// bodies from scratch space for immediate-mode code.
pub struct ForthCompiler<H: crate::stack_machine::HandleTrap> {
    pub sm: StackMachine<H>,
    pub(crate) word_addresses: Vec<(String, usize)>,
    pub(crate) last_function: usize,
}

impl<H: crate::stack_machine::HandleTrap> ForthCompiler<H> {
    /// The defined words, as name-address pairs in definition order.
    pub open(crate) spec fn words(&self) -> Seq<(Seq<char>, usize)> {
        table_views(self.word_addresses@)
    }

    /// The model of the compiler's machine.
    pub open(crate) spec fn mach(&self) -> MachineView {
        self.sm.st@
    }

    /// The high-water mark: the offset up to which the image holds committed
    /// word bodies.
    pub open(crate) spec fn committed(&self) -> usize {
        self.last_function
    }

    /// How many trap handlers the machine carries.
    pub open(crate) spec fn handler_count(&self) -> nat {
        self.sm.trap_handlers@.len()
    }

    /// A fresh compiler: an empty machine, no defined words, and the whole
    /// image as scratch space.
    pub fn new() -> (fc: ForthCompiler<H>)
        ensures
            fc.mach().stack == Seq::<i64>::empty(),
            fc.mach().rstack == Seq::<usize>::empty(),
            fc.mach().code == Seq::<Opcode>::empty(),
            fc.mach().pc == 0,
            fc.mach().gas == 0,
            fc.handler_count() == 0,
            fc.words() == Seq::<(Seq<char>, usize)>::empty(),
            fc.committed() == 0,
    {
        let fc = ForthCompiler {
            sm: StackMachine::new(),
            word_addresses: Vec::new(),
            last_function: 0,
        };
        proof {
            assert(fc.words() =~= Seq::<(Seq<char>, usize)>::empty());
        }
        fc
    }

    /// Turns source text into tokens, exactly as `spec_tokenize` says: words
    /// are split on ASCII whitespace and classified as numbers, `:` headers,
    /// `;`, or commands; the only rejected text is a `:` with no word after
    /// it.
    pub fn tokenize_string(&self, s: &str) -> (r: Result<Vec<Token>, ForthError>)
        ensures
            match spec_tokenize(s@) {
                Ok(tvs) => r is Ok && token_views(r->Ok_0@) == tvs,
                Err(()) => r matches Err(e) && e@ == ForthErrorView::InvalidSyntax(
                    "No token after :, but one needed to compile"@,
                ),
            },
    {
        let words = split_words(s);
        let ghost wsv = word_views(words@);
        let mut tv: Vec<Token> = Vec::new();
        let mut i: usize = 0;
        while i < words.len()
            invariant
                i <= words.len(),
                wsv == word_views(words@),
                wsv == spec_split_words(s@),
                wsv.len() == words@.len(),
                spec_tokenize_words(wsv, 0) == (match spec_tokenize_words(wsv, i as int) {
                    Ok(rest) => Ok::<Seq<TokenView>, ()>(token_views(tv@) + rest),
                    Err(e) => Err::<Seq<TokenView>, ()>(e),
                }),
            decreases words.len() - i,
        {
            let ghost pre = token_views(tv@);
            let w = &words[i];
            proof {
                assert(wsv[i as int] == w@);
                assert(wsv.len() == words@.len());
            }
            match parse_i64(w.as_str()) {
                Some(n) => {
                    tv.push(Token::Number(n));
                    proof {
                        assert(token_views(tv@) =~= pre.push(TokenView::Number(n)));
                        assert(pre.push(TokenView::Number(n)) + spec_or_empty(
                            spec_tokenize_words(wsv, i + 1),
                        ) =~= pre + (seq![TokenView::Number(n)] + spec_or_empty(
                            spec_tokenize_words(wsv, i + 1),
                        )));
                    }
                    i = i + 1;
                }
                None => {
                    if is_single_char(w, ':') {
                        if i + 1 < words.len() {
                            let name = words[i + 1].clone();
                            tv.push(Token::Colon(name));
                            proof {
                                assert(token_views(tv@) =~= pre.push(TokenView::Colon(
                                    wsv[i + 1],
                                )));
                                assert(pre.push(TokenView::Colon(wsv[i + 1])) + spec_or_empty(
                                    spec_tokenize_words(wsv, i + 2),
                                ) =~= pre + (seq![TokenView::Colon(wsv[i + 1])] + spec_or_empty(
                                    spec_tokenize_words(wsv, i + 2),
                                )));
                            }
                            i = i + 2;
                        } else {
                            return Err(
                                ForthError::InvalidSyntax(
                                    String::from_str("No token after :, but one needed to compile"),
                                ),
                            );
                        }
                    } else if is_single_char(w, ';') {
                        tv.push(Token::SemiColon);
                        proof {
                            assert(token_views(tv@) =~= pre.push(TokenView::SemiColon));
                            assert(pre.push(TokenView::SemiColon) + spec_or_empty(
                                spec_tokenize_words(wsv, i + 1),
                            ) =~= pre + (seq![TokenView::SemiColon] + spec_or_empty(
                                spec_tokenize_words(wsv, i + 1),
                            )));
                        }
                        i = i + 1;
                    } else {
                        let name = w.clone();
                        tv.push(Token::Command(name));
                        proof {
                            assert(token_views(tv@) =~= pre.push(TokenView::Command(
                                wsv[i as int],
                            )));
                            assert(pre.push(TokenView::Command(wsv[i as int])) + spec_or_empty(
                                spec_tokenize_words(wsv, i + 1),
                            ) =~= pre + (seq![TokenView::Command(wsv[i as int])] + spec_or_empty(
                                spec_tokenize_words(wsv, i + 1),
                            )));
                        }
                        i = i + 1;
                    }
                }
            }
        }
        proof {
            assert(token_views(tv@) + Seq::<TokenView>::empty() =~= token_views(tv@));
        }
        Ok(tv)
    }
}

/// Law: tokenizing is a pure function of the text.  Any two token sequences
/// that the tokenizer's contract allows for the same characters are equal, so
/// tokenizing the same string twice yields identical tokens.
pub proof fn lemma_tokenize_deterministic(s: Seq<char>, t1: Seq<TokenView>, t2: Seq<TokenView>)
    requires
        spec_tokenize(s) == Ok::<Seq<TokenView>, ()>(t1),
        spec_tokenize(s) == Ok::<Seq<TokenView>, ()>(t2),
    ensures
        t1 == t2,
{
}

/// The token sequence a tokenizer result carries, or empty if it is an error.
pub open spec fn spec_or_empty(r: Result<Seq<TokenView>, ()>) -> Seq<TokenView> {
    match r {
        Ok(ts) => ts,
        Err(()) => Seq::<TokenView>::empty(),
    }
}

/// Compile-time bookkeeping for one `IF` awaiting its `THEN`: the position of
/// the `IF`'s placeholder, and of the `ELSE`'s once one is seen.
pub struct DeferredIfStatement {
    pub if_location: usize,
    pub else_location: Option<usize>,
}

impl DeferredIfStatement {
    /// A fresh record for an `IF` at `if_location`, its `ELSE` not yet seen.
    pub fn new(if_location: usize) -> (r: DeferredIfStatement)
        ensures
            r.if_location == if_location,
            r.else_location is None,
    {
        DeferredIfStatement { if_location, else_location: None }
    }
}

/// The state of one compilation segment: the opcodes emitted so far and the
/// unresolved `IF`s, innermost last.
pub(crate) ghost struct CompState {
    pub out: Seq<Opcode>,
    pub defs: Seq<DeferredIfStatement>,
}

/// What one token adds to a compilation segment, against a fixed word table.
///
/// A number becomes a push-immediate.  `IF` records its position and emits a
/// placeholder push and a jump-if-nonzero (a zero test value falls through
/// into the branch).  `ELSE` records its position in the innermost open `IF`
/// and emits a placeholder push and an unconditional relative jump.  `THEN`
/// closes the innermost `IF`, patching the `IF`'s placeholder with the
/// relative offset to just past the `ELSE`'s jump (or to here if there was no
/// `ELSE`), and the `ELSE`'s placeholder with the offset to here.  Any other
/// command resolves first through the word table (a call to the recorded
/// address), then as an intrinsic; otherwise it is unknown.  An offset or
/// address that does not fit the placeholder's 64-bit payload, or a patch
/// position outside the emitted code, is a fatal error; neither can arise
/// from code this compiler emits.
pub(crate) open spec fn spec_compile_step(
    t: TokenView,
    st: CompState,
    words: Seq<(Seq<char>, usize)>,
) -> Result<CompState, ForthErrorView> {
    match t {
        TokenView::Number(n) => Ok(
            CompState { out: st.out.push(Opcode::LDI(n)), defs: st.defs },
        ),
        TokenView::Command(name) => {
            if name == "IF"@ {
                Ok(
                    CompState {
                        out: st.out.push(Opcode::LDI(0)).push(Opcode::JRNZ),
                        defs: st.defs.push(
                            DeferredIfStatement {
                                if_location: st.out.len() as usize,
                                else_location: None,
                            },
                        ),
                    },
                )
            } else if name == "ELSE"@ {
                if st.defs.len() == 0 {
                    Err(ForthErrorView::InvalidSyntax("ELSE without IF"@))
                } else {
                    let d = st.defs.last();
                    Ok(
                        CompState {
                            out: st.out.push(Opcode::LDI(0)).push(Opcode::JR),
                            defs: st.defs.update(
                                st.defs.len() - 1,
                                DeferredIfStatement {
                                    if_location: d.if_location,
                                    else_location: Some(st.out.len() as usize),
                                },
                            ),
                        },
                    )
                }
            } else if name == "THEN"@ {
                if st.defs.len() == 0 {
                    Err(ForthErrorView::InvalidSyntax("THEN without IF"@))
                } else {
                    let d = st.defs.last();
                    let cur = st.out.len() as int;
                    let if_off: int = match d.else_location {
                        None => cur - (d.if_location + 1),
                        Some(el) => el - d.if_location + 1,
                    };
                    let el_ok: bool = match d.else_location {
                        None => true,
                        Some(el) => 0 <= cur - (el + 1) <= i64::MAX && el < st.out.len(),
                    };
                    if 0 <= if_off <= i64::MAX && d.if_location < st.out.len() && el_ok {
                        let patched = st.out.update(
                            d.if_location as int,
                            Opcode::LDI(if_off as i64),
                        );
                        let out2 = match d.else_location {
                            None => patched,
                            Some(el) => patched.update(
                                el as int,
                                Opcode::LDI((cur - (el + 1)) as i64),
                            ),
                        };
                        Ok(CompState { out: out2, defs: st.defs.drop_last() })
                    } else {
                        Err(ForthErrorView::UnknownError)
                    }
                }
            } else {
                match word_lookup(words, name) {
                    Some(addr) => {
                        if addr <= i64::MAX {
                            Ok(
                                CompState {
                                    out: st.out.push(Opcode::LDI(addr as i64)).push(Opcode::CALL),
                                    defs: st.defs,
                                },
                            )
                        } else {
                            Err(ForthErrorView::UnknownError)
                        }
                    }
                    None => {
                        match spec_intrinsic(name) {
                            Some(ops) => Ok(CompState { out: st.out + ops, defs: st.defs }),
                            None => Err(ForthErrorView::UnknownToken(name)),
                        }
                    }
                }
            }
        }
        _ => Err(ForthErrorView::InvalidSyntax("token cannot appear inside a compiled segment"@)),
    }
}

/// A compilation segment from token `i` on: each token in turn, and at the
/// end every `IF` must have found its `THEN`.
pub(crate) open spec fn spec_compile_seq(
    tokens: Seq<TokenView>,
    i: int,
    st: CompState,
    words: Seq<(Seq<char>, usize)>,
) -> Result<CompState, ForthErrorView>
    decreases tokens.len() - i,
{
    if i < 0 || i >= tokens.len() {
        if st.defs.len() == 0 {
            Ok(st)
        } else {
            Err(ForthErrorView::InvalidSyntax("IF without THEN"@))
        }
    } else {
        match spec_compile_step(tokens[i], st, words) {
            Ok(st2) => spec_compile_seq(tokens, i + 1, st2, words),
            Err(e) => Err(e),
        }
    }
}

/// What compiling a token sequence as one segment emits.
pub(crate) open spec fn spec_compile_tokens(
    tokens: Seq<TokenView>,
    words: Seq<(Seq<char>, usize)>,
) -> Result<Seq<Opcode>, ForthErrorView> {
    match spec_compile_seq(
        tokens,
        0,
        CompState { out: Seq::<Opcode>::empty(), defs: Seq::<DeferredIfStatement>::empty() },
        words,
    ) {
        Ok(st) => Ok(st.out),
        Err(e) => Err(e),
    }
}

impl<H: crate::stack_machine::HandleTrap> ForthCompiler<H> {
    /// Compiles one segment of tokens (a word body, or one line's immediate
    /// code) into opcodes, exactly as `spec_compile_tokens` says, against the
    /// current word table.
    fn compile_token_vector(&self, token_vector: &Vec<Token>) -> (r: Result<
        Vec<Opcode>,
        ForthError,
    >)
        ensures
            match spec_compile_tokens(token_views(token_vector@), self.words()) {
                Ok(ops) => r is Ok && r->Ok_0@ == ops,
                Err(ev) => r is Err && r->Err_0@ == ev,
            },
    {
        let ghost toks = token_views(token_vector@);
        let ghost init_st = CompState {
            out: Seq::<Opcode>::empty(),
            defs: Seq::<DeferredIfStatement>::empty(),
        };
        let mut deferred_if_statements: Vec<DeferredIfStatement> = Vec::new();
        let mut tv: Vec<Opcode> = Vec::new();
        let mut i: usize = 0;
        proof {
            assert(token_views(token_vector@).len() == token_vector@.len());
        }
        while i < token_vector.len()
            invariant
                i <= token_vector.len(),
                toks == token_views(token_vector@),
                toks.len() == token_vector@.len(),
                spec_compile_seq(toks, 0, init_st, self.words()) == spec_compile_seq(
                    toks,
                    i as int,
                    CompState { out: tv@, defs: deferred_if_statements@ },
                    self.words(),
                ),
                init_st == (CompState {
                    out: Seq::<Opcode>::empty(),
                    defs: Seq::<DeferredIfStatement>::empty(),
                }),
            decreases token_vector.len() - i,
        {
            let ghost st_pre = CompState { out: tv@, defs: deferred_if_statements@ };
            proof {
                assert(toks[i as int] == token_vector@[i as int]@);
            }
            match &token_vector[i] {
                Token::Number(n) => {
                    tv.push(Opcode::LDI(*n));
                }
                Token::Command(s) => {
                    let current_instruction = tv.len();
                    if *s == String::from_str("IF") {
                        deferred_if_statements.push(DeferredIfStatement::new(current_instruction));
                        tv.push(Opcode::LDI(0));
                        tv.push(Opcode::JRNZ);
                    } else if *s == String::from_str("ELSE") {
                        if deferred_if_statements.len() > 0 {
                            let j = deferred_if_statements.len() - 1;
                            let d = deferred_if_statements.remove(j);
                            deferred_if_statements.push(
                                DeferredIfStatement {
                                    if_location: d.if_location,
                                    else_location: Some(current_instruction),
                                },
                            );
                            proof {
                                assert(deferred_if_statements@ =~= st_pre.defs.update(
                                    st_pre.defs.len() - 1,
                                    DeferredIfStatement {
                                        if_location: d.if_location,
                                        else_location: Some(current_instruction),
                                    },
                                ));
                            }
                            tv.push(Opcode::LDI(0));
                            tv.push(Opcode::JR);
                        } else {
                            return Err(
                                ForthError::InvalidSyntax(String::from_str("ELSE without IF")),
                            );
                        }
                    } else if *s == String::from_str("THEN") {
                        match deferred_if_statements.pop() {
                            Some(x) => {
                                let if_off128: i128 = match x.else_location {
                                    None => current_instruction as i128 - (x.if_location as i128
                                        + 1),
                                    Some(el) => el as i128 - x.if_location as i128 + 1,
                                };
                                let el_fits: bool = match x.else_location {
                                    None => true,
                                    Some(el) => {
                                        let eo: i128 = current_instruction as i128 - (el as i128
                                            + 1);
                                        0 <= eo && eo <= i64::MAX as i128 && el < tv.len()
                                    }
                                };
                                if 0 <= if_off128 && if_off128 <= i64::MAX as i128
                                    && x.if_location < tv.len() && el_fits {
                                    tv[x.if_location] = Opcode::LDI(if_off128 as i64);
                                    match x.else_location {
                                        None => {}
                                        Some(el) => {
                                            let eo: i128 = current_instruction as i128 - (el
                                                as i128 + 1);
                                            tv[el] = Opcode::LDI(eo as i64);
                                        }
                                    }
                                } else {
                                    return Err(ForthError::UnknownError);
                                }
                            }
                            None => {
                                return Err(
                                    ForthError::InvalidSyntax(String::from_str("THEN without IF")),
                                );
                            }
                        }
                    } else {
                        match table_lookup(&self.word_addresses, s) {
                            Some(offset) => {
                                if offset as u128 <= i64::MAX as u128 {
                                    tv.push(Opcode::LDI(offset as i64));
                                    tv.push(Opcode::CALL);
                                } else {
                                    return Err(ForthError::UnknownError);
                                }
                            }
                            None => {
                                match intrinsic_opcodes(s) {
                                    Some(ol) => {
                                        let mut ol = ol;
                                        tv.append(&mut ol);
                                    }
                                    None => {
                                        return Err(ForthError::UnknownToken(s.clone()));
                                    }
                                }
                            }
                        }
                    }
                }
                _ => {
                    return Err(
                        ForthError::InvalidSyntax(
                            String::from_str("token cannot appear inside a compiled segment"),
                        ),
                    );
                }
            }
            proof {
                assert(spec_compile_step(toks[i as int], st_pre, self.words()) == Ok::<
                    CompState,
                    ForthErrorView,
                >(CompState { out: tv@, defs: deferred_if_statements@ }));
            }
            i = i + 1;
        }
        if deferred_if_statements.len() > 0 {
            return Err(ForthError::InvalidSyntax(String::from_str("IF without THEN")));
        }
        Ok(tv)
    }
}

/// An image resized to `n` opcodes: truncated, or padded with no-ops.
pub open spec fn resize_code(code: Seq<Opcode>, n: usize) -> Seq<Opcode> {
    Seq::new(n as nat, |i: int| if i < code.len() { code[i] } else { Opcode::NOP })
}

/// The definition scanner's state: the image, word table and high-water mark
/// being built up, the immediate-mode tokens kept aside for the second pass,
/// and the name and body of the definition being captured, if one is open.
pub(crate) ghost struct DefScan {
    pub code: Seq<Opcode>,
    pub words: Seq<(Seq<char>, usize)>,
    pub last: usize,
    pub pending: Seq<TokenView>,
    pub mode: Option<Seq<char>>,
    pub body: Seq<TokenView>,
}

/// What one token does in the definition-stripping pass.
///
/// Outside a definition, a `:` header opens one and a `;` is a syntax error;
/// every other token is kept for the immediate-mode pass.  Inside a
/// definition, a second `:` is a syntax error; a `;` compiles the captured
/// body against the words defined so far, appends it (with a closing
/// `return`) at the high-water mark — truncating any scratch code past the
/// mark first — records the word's entry address, and advances the mark;
/// every other token joins the body.
pub(crate) open spec fn spec_scan_step(t: TokenView, s: DefScan) -> Result<
    DefScan,
    ForthErrorView,
> {
    match s.mode {
        Option::None => {
            match t {
                TokenView::Colon(name) => Ok(
                    DefScan { mode: Some(name), body: Seq::<TokenView>::empty(), ..s },
                ),
                TokenView::SemiColon => Err(
                    ForthErrorView::InvalidSyntax("Semicolon before colon"@),
                ),
                _ => Ok(DefScan { pending: s.pending.push(t), ..s }),
            }
        }
        Option::Some(name) => {
            match t {
                TokenView::Colon(_) => Err(
                    ForthErrorView::InvalidSyntax("Second colon before semicolon"@),
                ),
                TokenView::SemiColon => {
                    match spec_compile_tokens(s.body, s.words) {
                        Ok(ops) => {
                            let code2 = resize_code(s.code, s.last) + ops + seq![Opcode::RET];
                            Ok(
                                DefScan {
                                    code: code2,
                                    words: s.words.push((name, s.last)),
                                    last: code2.len() as usize,
                                    pending: s.pending,
                                    mode: None,
                                    body: Seq::<TokenView>::empty(),
                                },
                            )
                        }
                        Err(e) => Err(e),
                    }
                }
                _ => Ok(DefScan { body: s.body.push(t), ..s }),
            }
        }
    }
}

/// The definition-stripping pass from token `i` on.  Input that ends inside a
/// definition is missing its closing `;`.  On an error, the state already
/// built — words committed by earlier `;` included — is kept.
pub(crate) open spec fn spec_scan(tokens: Seq<TokenView>, i: int, s: DefScan) -> (
    DefScan,
    Option<ForthErrorView>,
)
    decreases tokens.len() - i,
{
    if i < 0 || i >= tokens.len() {
        if s.mode is Some {
            (s, Some(ForthErrorView::MissingSemicolonAfterColon))
        } else {
            (s, None)
        }
    } else {
        match spec_scan_step(tokens[i], s) {
            Ok(s2) => spec_scan(tokens, i + 1, s2),
            Err(e) => (s, Some(e)),
        }
    }
}

/// The scanner state a compiler begins a line with: its committed image,
/// words and mark, nothing pending and no open definition.
pub(crate) open spec fn scan_start(
    code: Seq<Opcode>,
    words: Seq<(Seq<char>, usize)>,
    last: usize,
) -> DefScan {
    DefScan {
        code,
        words,
        last,
        pending: Seq::<TokenView>::empty(),
        mode: None,
        body: Seq::<TokenView>::empty(),
    }
}

/// What compiling a whole token sequence does: strip and commit every
/// `: name … ;` definition in order, then compile the remaining tokens, with
/// a closing `return`, as the immediate-mode body.  Yields the state after
/// the definitions (changed even when a later step fails) and either the
/// immediate-mode opcodes or the first error.
pub(crate) open spec fn spec_compile_program(
    tokens: Seq<TokenView>,
    code: Seq<Opcode>,
    words: Seq<(Seq<char>, usize)>,
    last: usize,
) -> (DefScan, Result<Seq<Opcode>, ForthErrorView>) {
    let (s, err) = spec_scan(tokens, 0, scan_start(code, words, last));
    match err {
        Some(e) => (s, Err(e)),
        None => {
            match spec_compile_tokens(s.pending, s.words) {
                Ok(ops) => (s, Ok(ops.push(Opcode::RET))),
                Err(e) => (s, Err(e)),
            }
        }
    }
}

/// A copy of a token with the same model.
fn clone_token(t: &Token) -> (r: Token)
    ensures
        r@ == t@,
{
    match t {
        Token::Number(n) => Token::Number(*n),
        Token::Command(s) => Token::Command(s.clone()),
        Token::Colon(s) => Token::Colon(s.clone()),
        Token::SemiColon => Token::SemiColon,
        Token::End => Token::End,
        Token::Error(s) => Token::Error(s.clone()),
    }
}

impl<H: crate::stack_machine::HandleTrap> ForthCompiler<H> {
    /// Strips every `: name … ;` definition out of the token stream,
    /// compiling and committing each at the high-water mark in order, and
    /// compiles the remaining tokens into the immediate-mode body it returns,
    /// exactly as `spec_compile_program` says.
    fn compile_token_vector_strip_word_definitions(&mut self, token_vector: &Vec<Token>) -> (r:
        Result<Vec<Opcode>, ForthError>)
        ensures
            ({
                let (s, res) = spec_compile_program(
                    token_views(token_vector@),
                    old(self).mach().code,
                    old(self).words(),
                    old(self).committed(),
                );
                &&& final(self).mach().code == s.code
                &&& final(self).words() == s.words
                &&& final(self).committed() == s.last
                &&& final(self).mach().stack == old(self).mach().stack
                &&& final(self).mach().rstack == old(self).mach().rstack
                &&& final(self).mach().pc == old(self).mach().pc
                &&& final(self).mach().gas == old(self).mach().gas
                &&& final(self).handler_count() == old(self).handler_count()
                &&& match res {
                    Ok(ops) => r is Ok && r->Ok_0@ == ops,
                    Err(ev) => r is Err && r->Err_0@ == ev,
                }
            }),
    {
        let ghost toks = token_views(token_vector@);
        let ghost start = scan_start(
            old(self).mach().code,
            old(self).words(),
            old(self).committed(),
        );
        let mut pending: Vec<Token> = Vec::new();
        let mut in_def = false;
        let mut def_name = String::new();
        let mut body: Vec<Token> = Vec::new();
        let mut i: usize = 0;
        proof {
            assert(token_views(token_vector@).len() == token_vector@.len());
            assert(token_views(pending@) =~= Seq::<TokenView>::empty());
            assert(token_views(body@) =~= Seq::<TokenView>::empty());
        }
        while i < token_vector.len()
            invariant
                i <= token_vector.len(),
                toks == token_views(token_vector@),
                toks.len() == token_vector@.len(),
                start == scan_start(old(self).mach().code, old(self).words(), old(self).committed()),
                spec_scan(toks, 0, start) == spec_scan(
                    toks,
                    i as int,
                    DefScan {
                        code: self.mach().code,
                        words: self.words(),
                        last: self.committed(),
                        pending: token_views(pending@),
                        mode: if in_def {
                            Some(def_name@)
                        } else {
                            None
                        },
                        body: token_views(body@),
                    },
                ),
                self.mach().stack == old(self).mach().stack,
                self.mach().rstack == old(self).mach().rstack,
                self.mach().pc == old(self).mach().pc,
                self.mach().gas == old(self).mach().gas,
                self.handler_count() == old(self).handler_count(),
            decreases token_vector.len() - i,
        {
            let ghost scan_pre = DefScan {
                code: self.mach().code,
                words: self.words(),
                last: self.committed(),
                pending: token_views(pending@),
                mode: if in_def {
                    Some(def_name@)
                } else {
                    None
                },
                body: token_views(body@),
            };
            proof {
                assert(toks[i as int] == token_vector@[i as int]@);
            }
            let t = &token_vector[i];
            let is_colon = matches!(t, Token::Colon(_));
            let is_semi = matches!(t, Token::SemiColon);
            if !in_def {
                if is_colon {
                    match t {
                        Token::Colon(name) => {
                            in_def = true;
                            def_name = name.clone();
                            body = Vec::new();
                            proof {
                                assert(token_views(body@) =~= Seq::<TokenView>::empty());
                            }
                        }
                        _ => {}
                    }
                } else if is_semi {
                    return Err(ForthError::InvalidSyntax(String::from_str("Semicolon before colon")));
                } else {
                    let ghost pre = token_views(pending@);
                    pending.push(clone_token(t));
                    proof {
                        assert(token_views(pending@) =~= pre.push(toks[i as int]));
                    }
                }
            } else {
                if is_colon {
                    return Err(
                        ForthError::InvalidSyntax(String::from_str("Second colon before semicolon")),
                    );
                } else if is_semi {
                    let mut tvc = match self.compile_token_vector(&body) {
                        Ok(o) => o,
                        Err(e) => {
                            return Err(e);
                        }
                    };
                    // Remove anything extraneous past the committed mark,
                    // typically a previous line's immediate-mode code.
                    let ghost code_pre = self.mach().code;
                    self.sm.st.opcodes.resize(self.last_function, Opcode::NOP);
                    proof {
                        assert(self.mach().code =~= resize_code(code_pre, self.last_function));
                    }
                    let function_start = self.last_function;
                    self.sm.st.opcodes.append(&mut tvc);
                    self.sm.st.opcodes.push(Opcode::RET);
                    self.last_function = self.sm.st.opcodes.len();
                    self.word_addresses.push((def_name, function_start));
                    def_name = String::new();
                    in_def = false;
                    body = Vec::new();
                    proof {
                        assert(token_views(body@) =~= Seq::<TokenView>::empty());
                        assert(self.words() =~= scan_pre.words.push(
                            (scan_pre.mode->Some_0, function_start),
                        ));
                        assert(self.mach().code =~= resize_code(scan_pre.code, scan_pre.last)
                            + spec_compile_tokens(scan_pre.body, scan_pre.words)->Ok_0 + seq![
                                Opcode::RET,
                            ]);
                    }
                } else {
                    let ghost pre = token_views(body@);
                    body.push(clone_token(t));
                    proof {
                        assert(token_views(body@) =~= pre.push(toks[i as int]));
                    }
                }
            }
            proof {
                assert(spec_scan_step(toks[i as int], scan_pre) == Ok::<DefScan, ForthErrorView>(
                    DefScan {
                        code: self.mach().code,
                        words: self.words(),
                        last: self.committed(),
                        pending: token_views(pending@),
                        mode: if in_def {
                            Some(def_name@)
                        } else {
                            None
                        },
                        body: token_views(body@),
                    },
                ));
            }
            i = i + 1;
        }
        if in_def {
            return Err(ForthError::MissingSemicolonAfterColon);
        }
        let mut tvi = match self.compile_token_vector(&pending) {
            Ok(o) => o,
            Err(e) => {
                return Err(e);
            }
        };
        tvi.push(Opcode::RET);
        Ok(tvi)
    }
}

/// Everything observable about one compiler at one moment: its machine's
/// model, its word table, its high-water mark and how many trap handlers it
/// carries.
pub ghost struct CompilerSnap {
    pub m: MachineView,
    pub words: Seq<(Seq<char>, usize)>,
    pub last: usize,
    pub handlers: nat,
}

impl<H: crate::stack_machine::HandleTrap> ForthCompiler<H> {
    /// The compiler's observable state.
    pub open(crate) spec fn snap(&self) -> CompilerSnap {
        CompilerSnap {
            m: self.mach(),
            words: self.words(),
            last: self.committed(),
            handlers: self.handler_count(),
        }
    }
}

/// What compiling and running one line of tokens does to a compiler, and
/// which result it returns.
///
/// The definitions are committed and the word table and high-water mark
/// advance even when a later step fails.  A compile error is returned with
/// the machine's stacks untouched.  Otherwise the immediate-mode body is
/// placed past the mark — scratch code from an earlier line is cut away
/// first — and the machine runs from the mark under the gas budget, with the
/// result and final state pinned to the spec-level run `run_n` exactly as in
/// `StackMachine::execute`, machine errors folded into `ForthError`.
pub open(crate) spec fn line_post(
    tvs: Seq<TokenView>,
    pre: CompilerSnap,
    limit: GasLimit,
    post: CompilerSnap,
    r: Result<(), ForthError>,
) -> bool {
    let (s, res) = spec_compile_program(tvs, pre.m.code, pre.words, pre.last);
    &&& post.words == s.words
    &&& post.last == s.last
    &&& post.handlers == pre.handlers
    &&& match res {
        Err(ev) => {
            &&& r matches Err(e) && e@ == ev
            &&& post.m == (MachineView { code: s.code, ..pre.m })
        }
        Ok(ops) => {
            let init = MachineView {
                stack: pre.m.stack,
                rstack: pre.m.rstack,
                code: resize_code(s.code, s.last) + ops,
                pc: s.last,
                gas: 0,
            };
            &&& post.m.code == init.code
            &&& forall|n: nat|
                (#[trigger] run_n(init, limit, n)) is Done ==> r == Ok::<(), ForthError>(())
                    && run_n(init, limit, n) == RunState::Done(post.m)
            &&& forall|n: nat|
                (#[trigger] run_n(init, limit, n)) is Failed ==> (r matches Err(e) && e@
                    == crate::error::spec_from_stack_machine_error(
                    run_n(init, limit, n)->Failed_0,
                )) && run_n(init, limit, n) == RunState::Failed(
                    run_n(init, limit, n)->Failed_0,
                    post.m,
                )
            &&& forall|n: nat|
                ((#[trigger] run_n(init, limit, n)) is Trapped && pre.handlers == 0) ==> (
                r matches Err(e) && e@ == ForthErrorView::UnhandledTrap) && run_n(init, limit, n)
                    == RunState::Trapped(post.m, run_n(init, limit, n)->Trapped_1)
            &&& (r is Ok ==> exists|n: nat|
                (#[trigger] run_n(init, limit, n)) is Done || run_n(init, limit, n) is Trapped)
            &&& (r is Err ==> exists|n: nat|
                (#[trigger] run_n(init, limit, n)) is Failed || run_n(init, limit, n) is Trapped)
        }
    }
}

impl<H: crate::stack_machine::HandleTrap> ForthCompiler<H> {
    /// Compiles one line of tokens — committing its word definitions — and
    /// runs the immediate-mode remainder from the high-water mark under
    /// `gas_limit`, exactly as `line_post` says.
    pub fn execute_token_vector(&mut self, token_vector: &Vec<Token>, gas_limit: GasLimit) -> (r:
        Result<(), ForthError>)
        ensures
            line_post(
                token_views(token_vector@),
                old(self).snap(),
                gas_limit,
                final(self).snap(),
                r,
            ),
    {
        let ghost pre = self.snap();
        let mut ol = match self.compile_token_vector_strip_word_definitions(token_vector) {
            Ok(o) => o,
            Err(e) => {
                return Err(e);
            }
        };
        let ghost s = spec_compile_program(
            token_views(token_vector@),
            pre.m.code,
            pre.words,
            pre.last,
        ).0;
        let ghost code_mid = self.mach().code;
        self.sm.st.opcodes.resize(self.last_function, Opcode::NOP);
        proof {
            assert(self.mach().code =~= resize_code(code_mid, s.last));
        }
        self.sm.st.opcodes.append(&mut ol);
        match self.sm.execute(self.last_function, gas_limit) {
            Ok(()) => Ok(()),
            Err(e) => Err(ForthError::from(e)),
        }
    }

    /// Tokenizes, compiles and runs one line of source text under
    /// `gas_limit`: the composite a host calls repeatedly against one
    /// machine, each line seeing the words earlier lines defined.  Source the
    /// tokenizer rejects leaves the compiler untouched; the rest is exactly
    /// `line_post`.
    pub fn execute_string(&mut self, s: &str, gas_limit: GasLimit) -> (r: Result<(), ForthError>)
        ensures
            match spec_tokenize(s@) {
                Ok(tvs) => line_post(tvs, old(self).snap(), gas_limit, final(self).snap(), r),
                Err(()) => (r matches Err(e) && e@ == ForthErrorView::InvalidSyntax(
                    "No token after :, but one needed to compile"@,
                )) && final(self).snap() == old(self).snap(),
            },
    {
        let tv = match self.tokenize_string(s) {
            Ok(tv) => tv,
            Err(e) => {
                return Err(e);
            }
        };
        self.execute_token_vector(&tv, gas_limit)
    }
}

} // verus!
