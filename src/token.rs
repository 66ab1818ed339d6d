//! Tokens of the annotated text and their mathematical model.
use vstd::prelude::*;

pub mod delimiters;

verus! {

/// One token of annotated text.
#[derive(Debug, PartialEq)]
pub enum Token {
    /// Literal text.
    Text(String),
    /// A gloss `《...》` whose base is the end of the preceding `Text` token.
    Ruby {
        /// The tokens of the gloss.
        children: Vec<Token>,
    },
    /// A gloss with an explicitly delimited base, `｜base《gloss》`.
    PrefixedRuby {
        /// The tokens of the base.
        base_children: Vec<Token>,
        /// The tokens of the gloss.
        ruby_children: Vec<Token>,
    },
    /// An editorial command `［＃...］`.
    Command {
        /// The text between the delimiters.
        content: String,
    },
    /// A glyph reference `※［＃...］`.
    Gaiji {
        /// The text between the delimiters, e.g. `「丸印」、U+25CB`.
        description: String,
    },
    /// An accent decomposition `〔...〕`.
    Accent {
        /// The tokens of the content.
        children: Vec<Token>,
    },
}

/// The mathematical model of a token: strings are character sequences.
pub enum Tok {
    /// Literal text.
    Text(Seq<char>),
    /// A gloss, by the models of its tokens.
    Ruby(Seq<Tok>),
    /// A gloss with a delimited base: the base's models, then the gloss's.
    PrefixedRuby(Seq<Tok>, Seq<Tok>),
    /// A command, by its content.
    Command(Seq<char>),
    /// A glyph reference, by its description.
    Gaiji(Seq<char>),
    /// An accent decomposition, by the models of its tokens.
    Accent(Seq<Tok>),
}

/// The model of one token.
pub open spec fn model(t: Token) -> Tok
    decreases t, 1int,
{
    match t {
        Token::Text(s) => Tok::Text(s@),
        Token::Ruby { children } => Tok::Ruby(models(children@)),
        Token::PrefixedRuby { base_children, ruby_children } => Tok::PrefixedRuby(
            models(base_children@),
            models(ruby_children@),
        ),
        Token::Command { content } => Tok::Command(content@),
        Token::Gaiji { description } => Tok::Gaiji(description@),
        Token::Accent { children } => Tok::Accent(models(children@)),
    }
}

/// The models of a sequence of tokens, element by element.
pub open spec fn models(ts: Seq<Token>) -> Seq<Tok>
    decreases ts, 0int,
{
    if ts.len() == 0 {
        Seq::empty()
    } else {
        models(ts.drop_last()).push(model(ts.last()))
    }
}

/// Appending a token appends its model.
pub proof fn lemma_models_push(ts: Seq<Token>, t: Token)
    ensures
        models(ts.push(t)) == models(ts).push(model(t)),
{
    assert(ts.push(t).drop_last() =~= ts);
}

/// A copy of `t`.
fn copy_token(t: &Token) -> (r: Token)
    ensures
        model(r) == model(*t),
    decreases *t,
{
    match t {
        Token::Text(s) => Token::Text(s.clone()),
        Token::Ruby { children } => Token::Ruby { children: copy_tokens(children) },
        Token::PrefixedRuby { base_children, ruby_children } => Token::PrefixedRuby {
            base_children: copy_tokens(base_children),
            ruby_children: copy_tokens(ruby_children),
        },
        Token::Command { content } => Token::Command { content: content.clone() },
        Token::Gaiji { description } => Token::Gaiji { description: description.clone() },
        Token::Accent { children } => Token::Accent { children: copy_tokens(children) },
    }
}

/// A copy of each token of `ts`.
fn copy_tokens(ts: &Vec<Token>) -> (r: Vec<Token>)
    ensures
        models(r@) == models(ts@),
    decreases ts@,
{
    let mut r: Vec<Token> = Vec::new();
    let mut i: usize = 0;
    while i < ts.len()
        invariant
            i <= ts.len(),
            models(r@) == models(ts@.take(i as int)),
        decreases ts.len() - i,
    {
        let ghost before = r@;
        let t = copy_token(&ts[i]);
        r.push(t);
        proof {
            lemma_models_push(before, t);
            lemma_models_push(ts@.take(i as int), ts@[i as int]);
            assert(ts@.take(i + 1) =~= ts@.take(i as int).push(ts@[i as int]));
        }
        i += 1;
    }
    assert(ts@.take(ts.len() as int) =~= ts@);
    r
}

impl Clone for Token {
    /// A copy of the token, with the same model.
    fn clone(&self) -> (r: Token)
        ensures
            r@ == self@,
    {
        copy_token(self)
    }
}

impl View for Token {
    type V = Tok;

    open spec fn view(&self) -> Tok {
        model(*self)
    }
}

} // verus!
