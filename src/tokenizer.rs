//! The tokenizer: annotated text to a tree of tokens.
use vstd::prelude::*;

use crate::text::{char_string, chars_of, string_of_range};
use crate::token::delimiters::{
    ACCENT_BEGIN, ACCENT_END, COMMAND_BEGIN, COMMAND_END, GAIJI_MARK, IGETA, RUBY_BEGIN, RUBY_END,
    RUBY_PREFIX,
};
use crate::token::{lemma_models_push, model, models, Tok, Token};

verus! {

/// The characters that open a construct; a run of text stops before each of them.
pub open spec fn opens_construct(c: char) -> bool {
    c == COMMAND_BEGIN || c == RUBY_BEGIN || c == RUBY_PREFIX || c == GAIJI_MARK || c
        == ACCENT_BEGIN
}

/// The accent marks `' ` ^ ~ : & _ , / @`.
pub open spec fn is_accent_mark(c: char) -> bool {
    c == '\'' || c == '`' || c == '^' || c == '~' || c == ':' || c == '&' || c == '_' || c == ','
        || c == '/' || c == '@'
}

/// Whether `s` holds at least one accent mark.
pub open spec fn has_accent_mark(s: Seq<char>) -> bool {
    exists|k: int| 0 <= k < s.len() && is_accent_mark(#[trigger] s[k])
}

/// The first index at or after `i` that holds `c`, or `s.len()` if there is none.
pub open spec fn find_char(s: Seq<char>, i: int, c: char) -> int
    decreases s.len() - i,
{
    if i >= s.len() {
        s.len() as int
    } else if s[i] == c {
        i
    } else {
        find_char(s, i + 1, c)
    }
}

/// The first index at or after `i` that opens a construct, or `s.len()`.
pub open spec fn text_end(s: Seq<char>, i: int) -> int
    decreases s.len() - i,
{
    if i >= s.len() {
        s.len() as int
    } else if opens_construct(s[i]) {
        i
    } else {
        text_end(s, i + 1)
    }
}

/// The index of the closing bracket that brings the nesting depth, `depth`
/// before index `i`, down to zero; `s.len()` if the brackets are never closed.
pub open spec fn bracket_close(s: Seq<char>, i: int, depth: nat) -> int
    decreases s.len() - i,
{
    if i >= s.len() {
        s.len() as int
    } else if s[i] == COMMAND_BEGIN {
        bracket_close(s, i + 1, depth + 1)
    } else if s[i] == COMMAND_END {
        if depth <= 1 {
            i
        } else {
            bracket_close(s, i + 1, (depth - 1) as nat)
        }
    } else {
        bracket_close(s, i + 1, depth)
    }
}

/// The index just past a closing delimiter found at `e`, or `e` when it is the end.
pub open spec fn past(s: Seq<char>, e: int) -> int {
    if e < s.len() {
        e + 1
    } else {
        e
    }
}

/// Whether `s` starts with a closed command, `［＃...］`.
pub open spec fn starts_command(s: Seq<char>) -> bool {
    s.len() > 1 && s[0] == COMMAND_BEGIN && s[1] == IGETA && bracket_close(s, 2, 1) < s.len()
}

/// Whether `s` starts with a closed gloss, `《...》`.
pub open spec fn starts_ruby(s: Seq<char>) -> bool {
    s.len() > 0 && s[0] == RUBY_BEGIN && find_char(s, 1, RUBY_END) < s.len()
}

/// Whether `s` starts with a closed glyph reference, `※［＃...］`.
pub open spec fn starts_gaiji(s: Seq<char>) -> bool {
    s.len() > 2 && s[0] == GAIJI_MARK && s[1] == COMMAND_BEGIN && s[2] == IGETA && bracket_close(
        s,
        3,
        1,
    ) < s.len()
}

/// Whether `s` starts with a ruby base prefix that a gloss opening follows.
pub open spec fn starts_prefixed_ruby(s: Seq<char>) -> bool {
    s.len() > 0 && s[0] == RUBY_PREFIX && find_char(s, 1, RUBY_BEGIN) < s.len()
}

/// Whether `s` starts with a closed accent decomposition that holds an accent mark.
pub open spec fn starts_accent(s: Seq<char>) -> bool {
    s.len() > 0 && s[0] == ACCENT_BEGIN && find_char(s, 1, ACCENT_END) < s.len()
        && has_accent_mark(s.subrange(1, find_char(s, 1, ACCENT_END)))
}

/// `find_char` lands in range, on `c`, past no earlier `c`.
pub proof fn lemma_find_char_bounds(s: Seq<char>, i: int, c: char)
    requires
        0 <= i <= s.len(),
    ensures
        i <= find_char(s, i, c) <= s.len(),
        find_char(s, i, c) < s.len() ==> s[find_char(s, i, c)] == c,
        forall|k: int| i <= k < find_char(s, i, c) ==> s[k] != c,
    decreases s.len() - i,
{
    if i < s.len() && s[i] != c {
        lemma_find_char_bounds(s, i + 1, c);
    }
}

/// `text_end` lands in range, on an opening character, past none.
pub proof fn lemma_text_end_bounds(s: Seq<char>, i: int)
    requires
        0 <= i <= s.len(),
    ensures
        i <= text_end(s, i) <= s.len(),
        forall|k: int| i <= k < text_end(s, i) ==> !opens_construct(s[k]),
        text_end(s, i) < s.len() ==> opens_construct(s[text_end(s, i)]),
    decreases s.len() - i,
{
    if i < s.len() && !opens_construct(s[i]) {
        lemma_text_end_bounds(s, i + 1);
    }
}

/// `bracket_close` lands in range, on a closing bracket.
pub proof fn lemma_bracket_close_bounds(s: Seq<char>, i: int, depth: nat)
    requires
        0 <= i <= s.len(),
    ensures
        i <= bracket_close(s, i, depth) <= s.len(),
        bracket_close(s, i, depth) < s.len() ==> s[bracket_close(s, i, depth)] == COMMAND_END,
    decreases s.len() - i,
{
    if i < s.len() {
        if s[i] == COMMAND_BEGIN {
            lemma_bracket_close_bounds(s, i + 1, depth + 1);
        } else if s[i] == COMMAND_END {
            if depth > 1 {
                lemma_bracket_close_bounds(s, i + 1, (depth - 1) as nat);
            }
        } else {
            lemma_bracket_close_bounds(s, i + 1, depth);
        }
    }
}

/// The tokens of `s`, read from its first character on: the grammar of the
/// annotated text. Every input has tokens: a construct that is not closed, or
/// lacks what must follow its opening, leaves its opening character as text
/// and reading goes on just after it.
pub open spec fn lex(s: Seq<char>) -> Seq<Tok>
    decreases s.len(),
{
    if s.len() == 0 {
        Seq::empty()
    } else if starts_command(s) {
        let e = bracket_close(s, 2, 1);
        proof {
            lemma_bracket_close_bounds(s, 2, 1);
        }
        seq![Tok::Command(s.subrange(2, e))] + lex(s.skip(e + 1))
    } else if starts_ruby(s) {
        let e = find_char(s, 1, RUBY_END);
        proof {
            lemma_find_char_bounds(s, 1, RUBY_END);
        }
        seq![Tok::Ruby(lex(s.subrange(1, e)))] + lex(s.skip(e + 1))
    } else if starts_prefixed_ruby(s) {
        let b = find_char(s, 1, RUBY_BEGIN);
        proof {
            lemma_find_char_bounds(s, 1, RUBY_BEGIN);
            lemma_find_char_bounds(s, b + 1, RUBY_END);
        }
        let e = find_char(s, b + 1, RUBY_END);
        seq![Tok::PrefixedRuby(lex(s.subrange(1, b)), lex(s.subrange(b + 1, e)))] + lex(
            s.skip(past(s, e)),
        )
    } else if starts_gaiji(s) {
        let e = bracket_close(s, 3, 1);
        proof {
            lemma_bracket_close_bounds(s, 3, 1);
        }
        seq![Tok::Gaiji(s.subrange(3, e))] + lex(s.skip(e + 1))
    } else if starts_accent(s) {
        let e = find_char(s, 1, ACCENT_END);
        proof {
            lemma_find_char_bounds(s, 1, ACCENT_END);
        }
        seq![Tok::Accent(lex(s.subrange(1, e)))] + lex(s.skip(e + 1))
    } else if opens_construct(s[0]) {
        seq![Tok::Text(seq![s[0]])] + lex(s.skip(1))
    } else {
        let e = text_end(s, 0);
        proof {
            lemma_text_end_bounds(s, 0);
        }
        seq![Tok::Text(s.subrange(0, e))] + lex(s.skip(e))
    }
}

proof fn lemma_find_char_skip(s: Seq<char>, p: int, i: int, c: char)
    requires
        0 <= p <= s.len(),
        0 <= i,
    ensures
        find_char(s.skip(p), i, c) == find_char(s, p + i, c) - p,
    decreases s.len() - p - i,
{
    if p + i < s.len() && s[p + i] != c {
        lemma_find_char_skip(s, p, i + 1, c);
    }
}

proof fn lemma_text_end_skip(s: Seq<char>, p: int, i: int)
    requires
        0 <= p <= s.len(),
        0 <= i,
    ensures
        text_end(s.skip(p), i) == text_end(s, p + i) - p,
    decreases s.len() - p - i,
{
    if p + i < s.len() && !opens_construct(s[p + i]) {
        lemma_text_end_skip(s, p, i + 1);
    }
}

proof fn lemma_bracket_close_skip(s: Seq<char>, p: int, i: int, depth: nat)
    requires
        0 <= p <= s.len(),
        0 <= i,
    ensures
        bracket_close(s.skip(p), i, depth) == bracket_close(s, p + i, depth) - p,
    decreases s.len() - p - i,
{
    if p + i < s.len() {
        if s[p + i] == COMMAND_BEGIN {
            lemma_bracket_close_skip(s, p, i + 1, depth + 1);
        } else if s[p + i] == COMMAND_END {
            if depth > 1 {
                lemma_bracket_close_skip(s, p, i + 1, (depth - 1) as nat);
            }
        } else {
            lemma_bracket_close_skip(s, p, i + 1, depth);
        }
    }
}


proof fn lemma_find_char_at(s: Seq<char>, i: int, j: int, c: char)
    requires
        0 <= i <= j <= s.len(),
        forall|k: int| i <= k < j ==> s[k] != c,
        j == s.len() || s[j] == c,
    ensures
        find_char(s, i, c) == j,
    decreases j - i,
{
    if i < j {
        lemma_find_char_at(s, i + 1, j, c);
    }
}

proof fn lemma_text_end_at(s: Seq<char>, i: int, j: int)
    requires
        0 <= i <= j <= s.len(),
        forall|k: int| i <= k < j ==> !opens_construct(s[k]),
        j == s.len() || opens_construct(s[j]),
    ensures
        text_end(s, i) == j,
    decreases j - i,
{
    if i < j {
        lemma_text_end_at(s, i + 1, j);
    }
}

/// The depth of bracket nesting after reading `c` from depth `d`.
pub open spec fn depth_after(c: Seq<char>, d: int) -> int
    decreases c.len(),
{
    if c.len() == 0 {
        d
    } else if c[0] == COMMAND_BEGIN {
        depth_after(c.skip(1), d + 1)
    } else if c[0] == COMMAND_END {
        depth_after(c.skip(1), d - 1)
    } else {
        depth_after(c.skip(1), d)
    }
}

/// Whether reading `c` from depth `d` keeps the depth at one or more throughout.
pub open spec fn stays_nested(c: Seq<char>, d: int) -> bool
    decreases c.len(),
{
    if c.len() == 0 {
        true
    } else if c[0] == COMMAND_BEGIN {
        stays_nested(c.skip(1), d + 1)
    } else if c[0] == COMMAND_END {
        d - 1 >= 1 && stays_nested(c.skip(1), d - 1)
    } else {
        stays_nested(c.skip(1), d)
    }
}

/// Whether the brackets in `c` are balanced: every closing bracket closes an
/// opening one of `c`, and every opening one is closed.
pub open spec fn balanced(c: Seq<char>) -> bool {
    stays_nested(c, 1) && depth_after(c, 1) == 1
}

proof fn lemma_bracket_close_nested(s: Seq<char>, i: int, c: Seq<char>, d: int)
    requires
        0 <= i,
        i + c.len() <= s.len(),
        s.subrange(i, i + c.len()) == c,
        d >= 1,
        stays_nested(c, d),
    ensures
        depth_after(c, d) >= 1,
        bracket_close(s, i, d as nat) == bracket_close(s, i + c.len(), depth_after(c, d) as nat),
    decreases c.len(),
{
    if c.len() > 0 {
        assert(s[i] == c[0]);
        assert(s.subrange(i + 1, i + c.len()) =~= c.skip(1));
        if c[0] == COMMAND_BEGIN {
            lemma_bracket_close_nested(s, i + 1, c.skip(1), d + 1);
        } else if c[0] == COMMAND_END {
            lemma_bracket_close_nested(s, i + 1, c.skip(1), d - 1);
        } else {
            lemma_bracket_close_nested(s, i + 1, c.skip(1), d);
        }
    }
}

/// Text that opens no construct is read as a single text token holding all of it.
pub proof fn lemma_plain_text_one_token(s: Seq<char>)
    requires
        s.len() > 0,
        forall|k: int| 0 <= k < s.len() ==> !opens_construct(#[trigger] s[k]),
    ensures
        lex(s) == seq![Tok::Text(s)],
{
    lemma_text_end_at(s, 0, s.len() as int);
    assert(s.subrange(0, s.len() as int) =~= s);
    assert(s.skip(s.len() as int) =~= Seq::<char>::empty());
    assert(lex(Seq::<char>::empty()) == Seq::<Tok>::empty());
    assert(seq![Tok::Text(s)] + Seq::<Tok>::empty() =~= seq![Tok::Text(s)]);
}

/// A gloss after a run of text: the run stays one text token, the gloss
/// becomes a gloss token of its own tokens, and what follows is read as if
/// it stood alone.
pub proof fn lemma_gloss_after_text(b: Seq<char>, g: Seq<char>, r: Seq<char>)
    requires
        b.len() > 0,
        forall|k: int| 0 <= k < b.len() ==> !opens_construct(#[trigger] b[k]),
        forall|k: int| 0 <= k < g.len() ==> #[trigger] g[k] != RUBY_END,
    ensures
        lex(b + seq![RUBY_BEGIN] + g + seq![RUBY_END] + r) == seq![
            Tok::Text(b),
            Tok::Ruby(lex(g)),
        ] + lex(r),
{
    let s = b + seq![RUBY_BEGIN] + g + seq![RUBY_END] + r;
    let n = b.len() as int;
    lemma_text_end_at(s, 0, n);
    assert(s.subrange(0, n) =~= b);
    let t = s.skip(n);
    assert(t =~= seq![RUBY_BEGIN] + g + seq![RUBY_END] + r);
    let m = g.len() as int;
    lemma_find_char_at(t, 1, m + 1, RUBY_END);
    assert(t.subrange(1, m + 1) =~= g);
    assert(t.skip(m + 2) =~= r);
    assert(lex(t) == seq![Tok::Ruby(lex(g))] + lex(r));
    assert(seq![Tok::Text(b)] + (seq![Tok::Ruby(lex(g))] + lex(r)) =~= seq![
        Tok::Text(b),
        Tok::Ruby(lex(g)),
    ] + lex(r));
}

/// A gloss with a delimited base becomes one token of the base's tokens and
/// the gloss's tokens, and what follows is read as if it stood alone.
pub proof fn lemma_prefixed_gloss(b: Seq<char>, g: Seq<char>, r: Seq<char>)
    requires
        forall|k: int| 0 <= k < b.len() ==> #[trigger] b[k] != RUBY_BEGIN,
        forall|k: int| 0 <= k < g.len() ==> #[trigger] g[k] != RUBY_END,
    ensures
        lex(seq![RUBY_PREFIX] + b + seq![RUBY_BEGIN] + g + seq![RUBY_END] + r) == seq![
            Tok::PrefixedRuby(lex(b), lex(g)),
        ] + lex(r),
{
    let s = seq![RUBY_PREFIX] + b + seq![RUBY_BEGIN] + g + seq![RUBY_END] + r;
    let n = b.len() as int;
    lemma_find_char_at(s, 1, n + 1, RUBY_BEGIN);
    lemma_find_char_at(s, n + 2, n + 2 + g.len(), RUBY_END);
    assert(s.subrange(1, n + 1) =~= b);
    assert(s.subrange(n + 2, n + 2 + g.len()) =~= g);
    assert(s.skip(n + 3 + g.len()) =~= r);
}

/// A command whose brackets are balanced is read whole, nested brackets
/// included, into one command token; what follows is read as if it stood alone.
pub proof fn lemma_command_read_whole(c: Seq<char>, r: Seq<char>)
    requires
        balanced(c),
    ensures
        lex(seq![COMMAND_BEGIN, IGETA] + c + seq![COMMAND_END] + r) == seq![Tok::Command(c)]
            + lex(r),
{
    let s = seq![COMMAND_BEGIN, IGETA] + c + seq![COMMAND_END] + r;
    let n = c.len() as int;
    assert(s.subrange(2, 2 + n) =~= c);
    lemma_bracket_close_nested(s, 2, c, 1);
    assert(s[2 + n] == COMMAND_END);
    assert(bracket_close(s, 2 + n, 1) == 2 + n);
    assert(s.skip(3 + n) =~= r);
}

/// A ruby base prefix that no gloss opening follows is read as text on its
/// own, and the rest is read as if it stood alone.
pub proof fn lemma_unmatched_prefix(r: Seq<char>)
    requires
        forall|k: int| 0 <= k < r.len() ==> #[trigger] r[k] != RUBY_BEGIN,
    ensures
        lex(seq![RUBY_PREFIX] + r) == seq![Tok::Text(seq![RUBY_PREFIX])] + lex(r),
{
    let s = seq![RUBY_PREFIX] + r;
    lemma_find_char_at(s, 1, s.len() as int, RUBY_BEGIN);
    assert(s.skip(1) =~= r);
}

proof fn lemma_bracket_close_unclosed(s: Seq<char>, i: int, depth: nat)
    requires
        0 <= i <= s.len(),
        forall|k: int| i <= k < s.len() ==> s[k] != COMMAND_END,
    ensures
        bracket_close(s, i, depth) == s.len(),
    decreases s.len() - i,
{
    if i < s.len() {
        if s[i] == COMMAND_BEGIN {
            lemma_bracket_close_unclosed(s, i + 1, depth + 1);
        } else {
            lemma_bracket_close_unclosed(s, i + 1, depth);
        }
    }
}

/// A gloss opening that is never closed is read as text on its own, and the
/// rest is read as if it stood alone.
pub proof fn lemma_unclosed_gloss(r: Seq<char>)
    requires
        forall|k: int| 0 <= k < r.len() ==> #[trigger] r[k] != RUBY_END,
    ensures
        lex(seq![RUBY_BEGIN] + r) == seq![Tok::Text(seq![RUBY_BEGIN])] + lex(r),
{
    let s = seq![RUBY_BEGIN] + r;
    lemma_find_char_at(s, 1, s.len() as int, RUBY_END);
    assert(s.skip(1) =~= r);
}

/// A command with no closing bracket after it leaves its opening bracket as
/// text, and what follows the bracket is read as if it stood alone.
pub proof fn lemma_unclosed_command(r: Seq<char>)
    requires
        forall|k: int| 0 <= k < r.len() ==> #[trigger] r[k] != COMMAND_END,
    ensures
        lex(seq![COMMAND_BEGIN, IGETA] + r) == seq![Tok::Text(seq![COMMAND_BEGIN])] + lex(
            seq![IGETA] + r,
        ),
{
    let s = seq![COMMAND_BEGIN, IGETA] + r;
    lemma_bracket_close_unclosed(s, 2, 1);
    assert(s.skip(1) =~= seq![IGETA] + r);
}

/// A glyph reference with no closing bracket after it leaves its mark as
/// text, and what follows the mark is read as if it stood alone.
pub proof fn lemma_unclosed_gaiji(r: Seq<char>)
    requires
        forall|k: int| 0 <= k < r.len() ==> #[trigger] r[k] != COMMAND_END,
    ensures
        lex(seq![GAIJI_MARK, COMMAND_BEGIN, IGETA] + r) == seq![Tok::Text(seq![GAIJI_MARK])]
            + lex(seq![COMMAND_BEGIN, IGETA] + r),
{
    let s = seq![GAIJI_MARK, COMMAND_BEGIN, IGETA] + r;
    lemma_bracket_close_unclosed(s, 3, 1);
    assert(s.skip(1) =~= seq![COMMAND_BEGIN, IGETA] + r);
}

/// Whether `c` opens a construct.
fn is_construct_opener(c: char) -> (r: bool)
    ensures
        r == opens_construct(c),
{
    c == COMMAND_BEGIN || c == RUBY_BEGIN || c == RUBY_PREFIX || c == GAIJI_MARK || c
        == ACCENT_BEGIN
}

/// Whether `chars[a..b]` holds an accent mark.
fn contains_accent_marks(chars: &Vec<char>, a: usize, b: usize) -> (r: bool)
    requires
        a <= b <= chars.len(),
    ensures
        r == has_accent_mark(chars@.subrange(a as int, b as int)),
{
    let ghost sub = chars@.subrange(a as int, b as int);
    let mut i = a;
    while i < b
        invariant
            a <= i <= b <= chars.len(),
            sub == chars@.subrange(a as int, b as int),
            forall|k: int| 0 <= k < i - a ==> !is_accent_mark(#[trigger] sub[k]),
        decreases b - i,
    {
        let c = chars[i];
        if c == '\'' || c == '`' || c == '^' || c == '~' || c == ':' || c == '&' || c == '_' || c
            == ',' || c == '/' || c == '@' {
            assert(is_accent_mark(sub[i - a]));
            return true;
        }
        i += 1;
    }
    false
}

/// Reads one unit of annotated text into tokens.
pub struct Tokenizer {
    /// The whole input.
    chars: Vec<char>,
    /// The index of the next character to read.
    pos: usize,
}

impl Tokenizer {
    /// The characters not read yet.
    pub closed spec fn remaining(&self) -> Seq<char> {
        if self.pos <= self.chars.len() {
            self.chars@.skip(self.pos as int)
        } else {
            Seq::empty()
        }
    }

    /// A tokenizer at the start of `input`.
    pub fn new(input: &str) -> (r: Tokenizer)
        ensures
            r.remaining() == input@,
    {
        let chars = chars_of(input);
        assert(chars@.skip(0) =~= chars@);
        Tokenizer { chars, pos: 0 }
    }

    /// A tokenizer at the start of `chars[a..b]`.
    fn from_range(chars: &Vec<char>, a: usize, b: usize) -> (r: Tokenizer)
        requires
            a <= b <= chars.len(),
        ensures
            r.remaining() == chars@.subrange(a as int, b as int),
    {
        let mut v: Vec<char> = Vec::new();
        let mut i = a;
        while i < b
            invariant
                a <= i <= b <= chars.len(),
                v@ == chars@.subrange(a as int, i as int),
            decreases b - i,
        {
            v.push(chars[i]);
            i += 1;
            assert(v@ =~= chars@.subrange(a as int, i as int));
        }
        assert(v@.skip(0) =~= v@);
        Tokenizer { chars: v, pos: 0 }
    }

    /// Reads the whole remaining input into tokens.
    pub fn tokenize(&mut self) -> (r: Vec<Token>)
        ensures
            models(r@) == lex(old(self).remaining()),
            final(self).remaining() == Seq::<char>::empty(),
        decreases old(self).remaining().len(), 1int,
    {
        let mut tokens: Vec<Token> = Vec::new();
        while self.pos < self.chars.len()
            invariant
                models(tokens@) + lex(self.remaining()) == lex(old(self).remaining()),
                self.remaining().len() <= old(self).remaining().len(),
            decreases self.remaining().len(),
        {
            let ghost before = self.remaining();
            let ghost old_tokens = tokens@;
            let ch = self.chars[self.pos];
            let t = if ch == COMMAND_BEGIN {
                let is_command = match self.peek_nth(1) {
                    Some(c) => c == IGETA,
                    None => false,
                };
                if is_command {
                    self.read_command()
                } else {
                    self.read_single()
                }
            } else if ch == RUBY_BEGIN {
                self.read_ruby()
            } else if ch == RUBY_PREFIX {
                self.read_prefixed_ruby()
            } else if ch == GAIJI_MARK {
                let is_gaiji = match (self.peek_nth(1), self.peek_nth(2)) {
                    (Some(c1), Some(c2)) => c1 == COMMAND_BEGIN && c2 == IGETA,
                    _ => false,
                };
                if is_gaiji {
                    self.read_gaiji()
                } else {
                    self.read_single()
                }
            } else if ch == ACCENT_BEGIN {
                match self.try_read_accent() {
                    Some(t) => t,
                    None => self.read_single(),
                }
            } else {
                self.read_text()
            };
            tokens.push(t);
            proof {
                lemma_models_push(old_tokens, t);
                assert(models(tokens@) + lex(self.remaining()) =~= models(old_tokens) + lex(
                    before,
                ));
            }
        }
        tokens
    }

    /// The character `n` places after the cursor, if there is one.
    fn peek_nth(&self, n: usize) -> (r: Option<char>)
        requires
            self.pos <= self.chars.len(),
        ensures
            r == (if n < self.remaining().len() {
                Some(self.remaining()[n as int])
            } else {
                None::<char>
            }),
    {
        if n < self.chars.len() - self.pos {
            Some(self.chars[self.pos + n])
        } else {
            None
        }
    }

    /// Moves the cursor to the first `c` at or after it, or to the end.
    fn skip_to(&mut self, c: char)
        requires
            old(self).pos <= old(self).chars.len(),
        ensures
            final(self).chars@ == old(self).chars@,
            final(self).pos == find_char(old(self).chars@, old(self).pos as int, c),
    {
        proof {
            lemma_find_char_bounds(self.chars@, self.pos as int, c);
        }
        while self.pos < self.chars.len() && self.chars[self.pos] != c
            invariant
                self.chars@ == old(self).chars@,
                old(self).pos <= self.pos <= self.chars.len(),
                find_char(self.chars@, self.pos as int, c) == find_char(
                    self.chars@,
                    old(self).pos as int,
                    c,
                ),
            decreases self.chars.len() - self.pos,
        {
            self.pos += 1;
        }
    }

    /// Moves the cursor to the closing bracket that ends the command whose
    /// content starts at the cursor, or to the end.
    fn skip_to_bracket_close(&mut self)
        requires
            1 <= old(self).pos <= old(self).chars.len(),
        ensures
            final(self).chars@ == old(self).chars@,
            final(self).pos == bracket_close(old(self).chars@, old(self).pos as int, 1),
            old(self).pos <= final(self).pos <= final(self).chars.len(),
    {
        let mut depth: usize = 1;
        while self.pos < self.chars.len() && depth > 0
            invariant
                self.chars@ == old(self).chars@,
                old(self).pos <= self.pos <= self.chars.len(),
                1 <= old(self).pos,
                depth <= self.pos - old(self).pos + 1,
                depth > 0 ==> bracket_close(self.chars@, self.pos as int, depth as nat)
                    == bracket_close(self.chars@, old(self).pos as int, 1),
                depth == 0 ==> self.pos == bracket_close(self.chars@, old(self).pos as int, 1),
            decreases self.chars.len() - self.pos + (if depth > 0 {
                1int
            } else {
                0int
            }),
        {
            let ch = self.chars[self.pos];
            if ch == COMMAND_BEGIN {
                depth += 1;
            } else if ch == COMMAND_END {
                depth -= 1;
            }
            if depth > 0 {
                self.pos += 1;
            }
        }
    }

    /// Reads the character at the cursor, which opens no construct here, as text.
    fn read_single(&mut self) -> (t: Token)
        requires
            old(self).pos < old(self).chars.len(),
            opens_construct(old(self).chars@[old(self).pos as int]),
            !starts_command(old(self).remaining()),
            !starts_ruby(old(self).remaining()),
            !starts_prefixed_ruby(old(self).remaining()),
            !starts_gaiji(old(self).remaining()),
            !starts_accent(old(self).remaining()),
        ensures
            final(self).chars@ == old(self).chars@,
            final(self).pos == old(self).pos + 1,
            final(self).remaining().len() < old(self).remaining().len(),
            lex(old(self).remaining()) == seq![t@] + lex(final(self).remaining()),
    {
        let ch = self.chars[self.pos];
        let text = char_string(ch);
        self.pos += 1;
        proof {
            let s = self.chars@;
            assert(old(self).remaining().skip(1) =~= s.skip(self.pos as int));
        }
        Token::Text(text)
    }

    /// Reads a run of text up to the next character that opens a construct.
    fn read_text(&mut self) -> (t: Token)
        requires
            old(self).pos < old(self).chars.len(),
            !opens_construct(old(self).chars@[old(self).pos as int]),
        ensures
            final(self).chars@ == old(self).chars@,
            final(self).pos == text_end(old(self).chars@, old(self).pos as int),
            final(self).pos <= final(self).chars.len(),
            final(self).remaining().len() < old(self).remaining().len(),
            lex(old(self).remaining()) == seq![t@] + lex(final(self).remaining()),
    {
        let start = self.pos;
        let ghost s = self.chars@;
        proof {
            lemma_text_end_bounds(s, start as int);
        }
        while self.pos < self.chars.len() && !is_construct_opener(self.chars[self.pos])
            invariant
                self.chars@ == s,
                start <= self.pos <= self.chars.len(),
                text_end(s, self.pos as int) == text_end(s, start as int),
            decreases self.chars.len() - self.pos,
        {
            self.pos += 1;
        }
        let text = string_of_range(&self.chars, start, self.pos);
        proof {
            let r = s.skip(start as int);
            lemma_text_end_skip(s, start as int, 0);
            lemma_text_end_bounds(r, 0);
            assert(r.subrange(0, text_end(r, 0)) =~= s.subrange(start as int, self.pos as int));
            assert(r.skip(text_end(r, 0)) =~= s.skip(self.pos as int));
        }
        Token::Text(text)
    }

    /// Reads a command `［＃...］`, whose brackets may nest. When the command
    /// is never closed, reads its opening bracket alone as text.
    fn read_command(&mut self) -> (t: Token)
        requires
            old(self).pos + 1 < old(self).chars.len(),
            old(self).chars@[old(self).pos as int] == COMMAND_BEGIN,
            old(self).chars@[old(self).pos + 1] == IGETA,
        ensures
            final(self).chars@ == old(self).chars@,
            final(self).pos == (if bracket_close(old(self).chars@, old(self).pos + 2, 1) < old(
                self,
            ).chars.len() {
                bracket_close(old(self).chars@, old(self).pos + 2, 1) + 1
            } else {
                old(self).pos + 1
            }),
            final(self).pos <= final(self).chars.len(),
            final(self).remaining().len() < old(self).remaining().len(),
            lex(old(self).remaining()) == seq![t@] + lex(final(self).remaining()),
    {
        let ghost s = self.chars@;
        let ghost p = self.pos as int;
        let open = self.pos;
        self.pos += 2;
        let start = self.pos;
        self.skip_to_bracket_close();
        proof {
            lemma_bracket_close_skip(s, p, 2, 1);
            lemma_bracket_close_bounds(s, p + 2, 1);
        }
        if self.pos >= self.chars.len() {
            self.pos = open + 1;
            proof {
                assert(s.skip(p).skip(1) =~= s.skip(self.pos as int));
            }
            return Token::Text(char_string(COMMAND_BEGIN));
        }
        let content = string_of_range(&self.chars, start, self.pos);
        let ghost e = self.pos as int;
        self.pos += 1;
        proof {
            let r = s.skip(p);
            assert(r.subrange(2, e - p) =~= s.subrange(p + 2, e));
            assert(r.skip(e - p + 1) =~= s.skip(self.pos as int));
        }
        Token::Command { content }
    }

    /// Reads a gloss `《...》` and the tokens inside it. When the gloss is never
    /// closed, reads its opening mark alone as text.
    fn read_ruby(&mut self) -> (t: Token)
        requires
            old(self).pos < old(self).chars.len(),
            old(self).chars@[old(self).pos as int] == RUBY_BEGIN,
        ensures
            final(self).chars@ == old(self).chars@,
            final(self).pos == (if find_char(old(self).chars@, old(self).pos + 1, RUBY_END) < old(
                self,
            ).chars.len() {
                find_char(old(self).chars@, old(self).pos + 1, RUBY_END) + 1
            } else {
                old(self).pos + 1
            }),
            final(self).pos <= final(self).chars.len(),
            final(self).remaining().len() < old(self).remaining().len(),
            lex(old(self).remaining()) == seq![t@] + lex(final(self).remaining()),
        decreases old(self).remaining().len(), 0int,
    {
        let ghost s = self.chars@;
        let ghost p = self.pos as int;
        let open = self.pos;
        self.pos += 1;
        let start = self.pos;
        proof {
            lemma_find_char_bounds(s, p + 1, RUBY_END);
            lemma_find_char_skip(s, p, 1, RUBY_END);
        }
        self.skip_to(RUBY_END);
        if self.pos >= self.chars.len() {
            self.pos = open + 1;
            proof {
                assert(s.skip(p).skip(1) =~= s.skip(self.pos as int));
            }
            return Token::Text(char_string(RUBY_BEGIN));
        }
        let end = self.pos;
        self.pos += 1;
        let mut inner = Tokenizer::from_range(&self.chars, start, end);
        let children = inner.tokenize();
        proof {
            let r = s.skip(p);
            assert(r.subrange(1, end - p) =~= s.subrange(p + 1, end as int));
            assert(r.skip(end - p + 1) =~= s.skip(self.pos as int));
        }
        Token::Ruby { children }
    }

    /// Reads a gloss with a delimited base, `｜base《gloss》`; when no gloss
    /// opening follows, reads the prefix mark alone as text.
    fn read_prefixed_ruby(&mut self) -> (t: Token)
        requires
            old(self).pos < old(self).chars.len(),
            old(self).chars@[old(self).pos as int] == RUBY_PREFIX,
        ensures
            final(self).chars@ == old(self).chars@,
            final(self).pos == (if find_char(old(self).chars@, old(self).pos + 1, RUBY_BEGIN) < old(
                self,
            ).chars.len() {
                past(
                    old(self).chars@,
                    find_char(
                        old(self).chars@,
                        find_char(old(self).chars@, old(self).pos + 1, RUBY_BEGIN) + 1,
                        RUBY_END,
                    ),
                )
            } else {
                old(self).pos + 1
            }),
            final(self).pos <= final(self).chars.len(),
            final(self).remaining().len() < old(self).remaining().len(),
            lex(old(self).remaining()) == seq![t@] + lex(final(self).remaining()),
        decreases old(self).remaining().len(), 0int,
    {
        let ghost s = self.chars@;
        let ghost p = self.pos as int;
        self.pos += 1;
        let base_start = self.pos;
        proof {
            lemma_find_char_bounds(s, p + 1, RUBY_BEGIN);
            lemma_find_char_skip(s, p, 1, RUBY_BEGIN);
        }
        self.skip_to(RUBY_BEGIN);
        if self.pos >= self.chars.len() {
            self.pos = base_start;
            proof {
                assert(s.skip(p).skip(1) =~= s.skip(self.pos as int));
            }
            return Token::Text(char_string(RUBY_PREFIX));
        }
        let base_end = self.pos;
        self.pos += 1;
        let ruby_start = self.pos;
        proof {
            lemma_find_char_bounds(s, ruby_start as int, RUBY_END);
            lemma_find_char_skip(s, p, ruby_start - p, RUBY_END);
        }
        self.skip_to(RUBY_END);
        let ruby_end = self.pos;
        if self.pos < self.chars.len() && self.chars[self.pos] == RUBY_END {
            self.pos += 1;
        }
        let mut base_tokenizer = Tokenizer::from_range(&self.chars, base_start, base_end);
        let base_children = base_tokenizer.tokenize();
        let mut ruby_tokenizer = Tokenizer::from_range(&self.chars, ruby_start, ruby_end);
        let ruby_children = ruby_tokenizer.tokenize();
        proof {
            let r = s.skip(p);
            assert(r.subrange(1, base_end - p) =~= s.subrange(p + 1, base_end as int));
            assert(r.subrange(ruby_start - p, ruby_end - p) =~= s.subrange(
                ruby_start as int,
                ruby_end as int,
            ));
            assert(r.skip(past(r, ruby_end - p)) =~= s.skip(self.pos as int));
        }
        Token::PrefixedRuby { base_children, ruby_children }
    }

    /// Reads a glyph reference `※［＃...］`, whose brackets may nest. When the
    /// reference is never closed, reads its mark alone as text.
    fn read_gaiji(&mut self) -> (t: Token)
        requires
            old(self).pos + 2 < old(self).chars.len(),
            old(self).chars@[old(self).pos as int] == GAIJI_MARK,
            old(self).chars@[old(self).pos + 1] == COMMAND_BEGIN,
            old(self).chars@[old(self).pos + 2] == IGETA,
        ensures
            final(self).chars@ == old(self).chars@,
            final(self).pos == (if bracket_close(old(self).chars@, old(self).pos + 3, 1) < old(
                self,
            ).chars.len() {
                bracket_close(old(self).chars@, old(self).pos + 3, 1) + 1
            } else {
                old(self).pos + 1
            }),
            final(self).pos <= final(self).chars.len(),
            final(self).remaining().len() < old(self).remaining().len(),
            lex(old(self).remaining()) == seq![t@] + lex(final(self).remaining()),
    {
        let ghost s = self.chars@;
        let ghost p = self.pos as int;
        let open = self.pos;
        self.pos += 3;
        let start = self.pos;
        self.skip_to_bracket_close();
        proof {
            lemma_bracket_close_skip(s, p, 3, 1);
            lemma_bracket_close_bounds(s, p + 3, 1);
        }
        if self.pos >= self.chars.len() {
            self.pos = open + 1;
            proof {
                assert(s.skip(p).skip(1) =~= s.skip(self.pos as int));
            }
            return Token::Text(char_string(GAIJI_MARK));
        }
        let description = string_of_range(&self.chars, start, self.pos);
        let ghost e = self.pos as int;
        self.pos += 1;
        proof {
            let r = s.skip(p);
            assert(r.subrange(3, e - p) =~= s.subrange(p + 3, e));
            assert(r.skip(e - p + 1) =~= s.skip(self.pos as int));
        }
        Token::Gaiji { description }
    }

    /// Tries to read an accent decomposition `〔...〕`. It is one only when it is
    /// closed and holds an accent mark; otherwise the cursor stays where it was.
    fn try_read_accent(&mut self) -> (r: Option<Token>)
        requires
            old(self).pos < old(self).chars.len(),
            old(self).chars@[old(self).pos as int] == ACCENT_BEGIN,
        ensures
            final(self).chars@ == old(self).chars@,
            r is Some <==> starts_accent(old(self).remaining()),
            r is None ==> final(self).pos == old(self).pos,
            r is Some ==> final(self).pos == find_char(
                old(self).chars@,
                old(self).pos + 1,
                ACCENT_END,
            ) + 1,
            r is Some ==> final(self).pos <= final(self).chars.len(),
            r is Some ==> final(self).remaining().len() < old(self).remaining().len(),
            r is Some ==> lex(old(self).remaining()) == seq![r->0@] + lex(
                final(self).remaining(),
            ),
        decreases old(self).remaining().len(), 0int,
    {
        let ghost s = self.chars@;
        let ghost p = self.pos as int;
        let start = self.pos;
        self.pos += 1;
        let content_start = self.pos;
        proof {
            lemma_find_char_bounds(s, p + 1, ACCENT_END);
            lemma_find_char_skip(s, p, 1, ACCENT_END);
        }
        self.skip_to(ACCENT_END);
        if self.pos >= self.chars.len() {
            self.pos = start;
            return None;
        }
        let content_end = self.pos;
        proof {
            assert(s.skip(p).subrange(1, content_end - p) =~= s.subrange(
                p + 1,
                content_end as int,
            ));
        }
        if !contains_accent_marks(&self.chars, content_start, content_end) {
            self.pos = start;
            return None;
        }
        self.pos += 1;
        let mut inner = Tokenizer::from_range(&self.chars, content_start, content_end);
        let children = inner.tokenize();
        proof {
            assert(s.skip(p).skip(content_end - p + 1) =~= s.skip(self.pos as int));
        }
        Some(Token::Accent { children })
    }
}

} // verus!
