//! Recovery of the visible text from a token tree.
use vstd::prelude::*;
use vstd::string::StringExecFns;

use crate::gaiji::{glyph_of, resolve};
use crate::text::char_string;
use crate::token::{lemma_models_push, model, models, Tok, Token};
use crate::token::delimiters::{COMMAND_BEGIN, COMMAND_END, IGETA, RUBY_BEGIN, RUBY_END, RUBY_PREFIX};
use crate::tokenizer::{
    balanced, lemma_command_read_whole, lemma_gloss_after_text, lemma_plain_text_one_token,
    lemma_prefixed_gloss, lex, opens_construct, Tokenizer,
};

verus! {

/// The visible text of one token.
pub open spec fn tok_text(t: Tok) -> Seq<char>
    decreases t, 1int,
{
    match t {
        Tok::Text(s) => s,
        Tok::Ruby(_) => Seq::empty(),
        Tok::PrefixedRuby(base, _) => text_of(base),
        Tok::Command(_) => Seq::empty(),
        Tok::Gaiji(d) => match glyph_of(d) {
            Some(c) => seq![c],
            None => Seq::empty(),
        },
        Tok::Accent(children) => text_of(children),
    }
}

/// The visible text of a token sequence: the visible texts of its tokens, in order.
pub open spec fn text_of(ts: Seq<Tok>) -> Seq<char>
    decreases ts, 0int,
{
    if ts.len() == 0 {
        Seq::empty()
    } else {
        text_of(ts.drop_last()) + tok_text(ts.last())
    }
}

proof fn lemma_text_of_push(ts: Seq<Tok>, t: Tok)
    ensures
        text_of(ts.push(t)) == text_of(ts) + tok_text(t),
{
    assert(ts.push(t).drop_last() =~= ts);
}


/// The visible text of two token sequences one after the other is the one
/// text after the other.
pub proof fn lemma_text_of_concat(a: Seq<Tok>, b: Seq<Tok>)
    ensures
        text_of(a + b) == text_of(a) + text_of(b),
    decreases b.len(),
{
    if b.len() == 0 {
        assert(a + b =~= a);
        assert(text_of(a) + Seq::<char>::empty() =~= text_of(a));
    } else {
        assert((a + b).drop_last() =~= a + b.drop_last());
        lemma_text_of_concat(a, b.drop_last());
        assert(text_of(a) + text_of(b.drop_last()) + tok_text(b.last()) =~= text_of(a) + (
        text_of(b.drop_last()) + tok_text(b.last())));
    }
}

/// Text that opens no construct is kept as it is.
pub proof fn lemma_plain_text_kept(s: Seq<char>)
    requires
        forall|k: int| 0 <= k < s.len() ==> !opens_construct(#[trigger] s[k]),
    ensures
        text_of(lex(s)) == s,
{
    if s.len() > 0 {
        lemma_plain_text_one_token(s);
        lemma_text_of_push(Seq::empty(), Tok::Text(s));
        assert(Seq::<Tok>::empty().push(Tok::Text(s)) =~= seq![Tok::Text(s)]);
        assert(Seq::<char>::empty() + s =~= s);
    } else {
        assert(s =~= Seq::<char>::empty());
    }
}

/// A gloss is dropped while the text that carries it is kept.
pub proof fn lemma_gloss_dropped(b: Seq<char>, g: Seq<char>, r: Seq<char>)
    requires
        b.len() > 0,
        forall|k: int| 0 <= k < b.len() ==> !opens_construct(#[trigger] b[k]),
        forall|k: int| 0 <= k < g.len() ==> #[trigger] g[k] != RUBY_END,
    ensures
        text_of(lex(b + seq![RUBY_BEGIN] + g + seq![RUBY_END] + r)) == b + text_of(lex(r)),
{
    lemma_gloss_after_text(b, g, r);
    let head = seq![Tok::Text(b), Tok::Ruby(lex(g))];
    lemma_text_of_concat(head, lex(r));
    assert(head =~= Seq::<Tok>::empty().push(Tok::Text(b)).push(Tok::Ruby(lex(g))));
    lemma_text_of_push(Seq::<Tok>::empty().push(Tok::Text(b)), Tok::Ruby(lex(g)));
    lemma_text_of_push(Seq::<Tok>::empty(), Tok::Text(b));
    assert(Seq::<char>::empty() + b + Seq::<char>::empty() =~= b);
}

/// Of a gloss with a delimited base only the base is kept.
pub proof fn lemma_prefixed_gloss_keeps_base(b: Seq<char>, g: Seq<char>, r: Seq<char>)
    requires
        forall|k: int| 0 <= k < b.len() ==> #[trigger] b[k] != RUBY_BEGIN,
        forall|k: int| 0 <= k < g.len() ==> #[trigger] g[k] != RUBY_END,
    ensures
        text_of(lex(seq![RUBY_PREFIX] + b + seq![RUBY_BEGIN] + g + seq![RUBY_END] + r))
            == text_of(lex(b)) + text_of(lex(r)),
{
    lemma_prefixed_gloss(b, g, r);
    let head = seq![Tok::PrefixedRuby(lex(b), lex(g))];
    lemma_text_of_concat(head, lex(r));
    assert(head =~= Seq::<Tok>::empty().push(Tok::PrefixedRuby(lex(b), lex(g))));
    lemma_text_of_push(Seq::<Tok>::empty(), Tok::PrefixedRuby(lex(b), lex(g)));
    assert(Seq::<char>::empty() + text_of(lex(b)) =~= text_of(lex(b)));
}

/// A command whose brackets are balanced is dropped, nested brackets included.
pub proof fn lemma_command_dropped(c: Seq<char>, r: Seq<char>)
    requires
        balanced(c),
    ensures
        text_of(lex(seq![COMMAND_BEGIN, IGETA] + c + seq![COMMAND_END] + r)) == text_of(lex(r)),
{
    lemma_command_read_whole(c, r);
    let head = seq![Tok::Command(c)];
    lemma_text_of_concat(head, lex(r));
    assert(head =~= Seq::<Tok>::empty().push(Tok::Command(c)));
    lemma_text_of_push(Seq::<Tok>::empty(), Tok::Command(c));
    assert(Seq::<char>::empty() + Seq::<char>::empty() + text_of(lex(r)) =~= text_of(lex(r)));
}

/// Flattens token trees into plain text.
pub struct PlainTextExtractor;

impl PlainTextExtractor {
    /// The visible text of `tokens`: text is kept, glosses and commands are
    /// dropped, an explicitly delimited base and the content of an accent
    /// decomposition are kept, and a glyph reference becomes its character.
    pub fn extract(tokens: &[Token]) -> (r: String)
        ensures
            r@ == text_of(models(tokens@)),
        decreases tokens@,
    {
        let mut r = String::new();
        let mut i: usize = 0;
        while i < tokens.len()
            invariant
                i <= tokens.len(),
                r@ == text_of(models(tokens@.take(i as int))),
            decreases tokens.len() - i,
        {
            let piece = Self::extract_token(&tokens[i]);
            r.append(piece.as_str());
            proof {
                let before = tokens@.take(i as int);
                lemma_models_push(before, tokens@[i as int]);
                assert(tokens@.take(i + 1) =~= before.push(tokens@[i as int]));
                lemma_text_of_push(models(before), model(tokens@[i as int]));
            }
            i += 1;
        }
        assert(tokens@.take(tokens.len() as int) =~= tokens@);
        r
    }

    /// The visible text of one token.
    fn extract_token(token: &Token) -> (r: String)
        ensures
            r@ == tok_text(model(*token)),
        decreases *token,
    {
        match token {
            Token::Text(s) => s.clone(),
            Token::Ruby { .. } => String::new(),
            Token::PrefixedRuby { base_children, .. } => Self::extract(base_children.as_slice()),
            Token::Command { .. } => String::new(),
            Token::Gaiji { description } => match resolve(description.as_str()) {
                Some(c) => char_string(c),
                None => String::new(),
            },
            Token::Accent { children } => Self::extract(children.as_slice()),
        }
    }
}

/// The plain text of annotated text: its tokens, flattened.
pub fn convert(text: &str) -> (r: String)
    ensures
        r@ == text_of(lex(text@)),
{
    let mut tokenizer = Tokenizer::new(text);
    let tokens = tokenizer.tokenize();
    PlainTextExtractor::extract(tokens.as_slice())
}

} // verus!
