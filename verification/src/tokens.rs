//! The classified token stream over one file's text. The tokenizer itself is
//! an external collaborator; the stream's shape — ordered, non-overlapping,
//! non-empty spans over character offsets, with a designated newline kind —
//! is the contract this library builds on. A plain-text tokenizer (runs of
//! non-newline characters, one token per newline) is provided for callers
//! that have no language-aware stream at hand.

use vstd::prelude::*;

verus! {

/// The classification of one span. An identifier may carry a prebuilt inline
/// style attribute of its own.
pub enum TokenKind {
    Identifier(Option<String>),
    StringLiteral,
    Comment,
    Punctuation,
    PlainText,
    TagName,
    TagAttrName,
    EndTagName,
    RegularExpressionLiteral,
    Newline,
}

/// One classified span: `start` and `end` are character offsets into the
/// file's text.
pub struct Token {
    pub kind: TokenKind,
    pub start: usize,
    pub end: usize,
}

/// A well-formed stream: every span is non-empty, within the text, and the
/// spans are strictly ordered and non-overlapping.
pub open spec fn tokens_wf(tokens: Seq<Token>, text_len: int) -> bool {
    &&& forall|i: int|
        0 <= i < tokens.len() ==> (#[trigger] tokens[i]).start < tokens[i].end <= text_len
    &&& forall|i: int|
        0 <= i < tokens.len() - 1 ==> (#[trigger] tokens[i]).end <= tokens[i + 1].start
}

/// In a well-formed stream each span starts at or after its own index, so a
/// stream never holds more tokens than the text has characters.
pub proof fn lemma_tokens_start_ge(tokens: Seq<Token>, text_len: int, i: int)
    requires
        tokens_wf(tokens, text_len),
        0 <= i < tokens.len(),
    ensures
        tokens[i].start >= i,
    decreases i,
{
    if i > 0 {
        lemma_tokens_start_ge(tokens, text_len, i - 1);
        assert(tokens[i - 1].end <= tokens[i].start);
    }
}

pub proof fn lemma_tokens_len(tokens: Seq<Token>, text_len: int)
    requires
        text_len >= 0,
        tokens_wf(tokens, text_len),
    ensures
        tokens.len() <= text_len,
{
    if tokens.len() > 0 {
        let i = tokens.len() - 1;
        lemma_tokens_start_ge(tokens, text_len, i);
        assert(tokens[i].start < tokens[i].end <= text_len);
    }
}

/// The position of the first newline character at or after `i`, or the text's
/// length when none is left.
pub open spec fn next_newline(text: Seq<char>, i: int) -> int
    decreases text.len() - i,
{
    if i < 0 || i >= text.len() {
        text.len() as int
    } else if text[i] == '\n' {
        i
    } else {
        next_newline(text, i + 1)
    }
}

pub proof fn lemma_next_newline(text: Seq<char>, i: int)
    requires
        0 <= i <= text.len(),
    ensures
        i <= next_newline(text, i) <= text.len(),
        next_newline(text, i) < text.len() ==> text[next_newline(text, i)] == '\n',
        forall|j: int| i <= j < next_newline(text, i) ==> text[j] != '\n',
    decreases text.len() - i,
{
    if i < text.len() && text[i] != '\n' {
        lemma_next_newline(text, i + 1);
    }
}

/// The plain-text token stream: each maximal run of non-newline characters is
/// one `PlainText` span and each newline character is one `Newline` span.
pub open spec fn plain_tokens_from(text: Seq<char>, i: int) -> Seq<Token>
    decreases text.len() - i,
    via plain_tokens_from_dec
{
    if i < 0 || i >= text.len() {
        Seq::empty()
    } else if text[i] == '\n' {
        seq![Token { kind: TokenKind::Newline, start: i as usize, end: (i + 1) as usize }]
            + plain_tokens_from(text, i + 1)
    } else {
        let j = next_newline(text, i);
        seq![Token { kind: TokenKind::PlainText, start: i as usize, end: j as usize }]
            + plain_tokens_from(text, j)
    }
}

#[via_fn]
proof fn plain_tokens_from_dec(text: Seq<char>, i: int) {
    if 0 <= i < text.len() && text[i] != '\n' {
        lemma_next_newline(text, i + 1);
    }
}

/// The plain-text stream is well-formed from any starting position: spans
/// are non-empty, inside the text, ordered and non-overlapping, and none
/// starts before the position itself.
#[verifier::rlimit(100)]
#[verifier::spinoff_prover]
pub proof fn lemma_plain_tokens_from_wf(text: Seq<char>, i: int)
    requires
        0 <= i <= text.len(),
        text.len() < 0x8000_0000,
    ensures
        tokens_wf(plain_tokens_from(text, i), text.len() as int),
        forall|k: int|
            0 <= k < plain_tokens_from(text, i).len() ==> (#[trigger] plain_tokens_from(
                text,
                i,
            )[k]).start >= i,
    decreases text.len() - i,
{
    if i < text.len() {
        let ts = plain_tokens_from(text, i);
        let rest = if text[i] == '\n' {
            plain_tokens_from(text, i + 1)
        } else {
            plain_tokens_from(text, next_newline(text, i))
        };
        if text[i] == '\n' {
            lemma_plain_tokens_from_wf(text, i + 1);
            let tok = Token { kind: TokenKind::Newline, start: i as usize, end: (i + 1) as usize };
            assert(ts == seq![tok] + rest);
            assert(seq![tok][0] == tok);
            assert(ts[0] == tok);
            assert(ts[0].start == i && ts[0].end == i + 1);
        } else {
            let j = next_newline(text, i);
            lemma_next_newline(text, i + 1);
            lemma_next_newline(text, i);
            lemma_plain_tokens_from_wf(text, j);
            let tok = Token { kind: TokenKind::PlainText, start: i as usize, end: j as usize };
            assert(ts == seq![tok] + rest);
            assert(seq![tok][0] == tok);
            assert(ts[0] == tok);
            assert(j >= i + 1);
            assert(ts[0].start == i && ts[0].end == j);
        }
        let first = ts[0];
        assert(first.start == i);
        assert(ts.len() == 1 + rest.len());
        assert(forall|k: int| 1 <= k < ts.len() ==> ts[k] == rest[k - 1]);
        assert(first.start < first.end <= text.len());
        assert(forall|k: int| 0 <= k < rest.len() ==> (#[trigger] rest[k]).start >= first.end);
        assert forall|k: int| 0 <= k < ts.len() implies (#[trigger] ts[k]).start < ts[k].end
            <= text.len() by {
            if k >= 1 {
                assert(ts[k] == rest[k - 1]);
            }
        }
        assert forall|k: int| 0 <= k < ts.len() - 1 implies (#[trigger] ts[k]).end <= ts[k
            + 1].start by {
            if k == 0 {
                assert(ts[1] == rest[0]);
            } else {
                assert(ts[k] == rest[k - 1]);
                assert(ts[k + 1] == rest[k]);
            }
        }
        assert forall|k: int| 0 <= k < ts.len() implies (#[trigger] ts[k]).start >= i by {
            if k >= 1 {
                assert(ts[k] == rest[k - 1]);
            }
        }
    }
}

/// What `tokenize_plain` returns satisfies the stream contract that the
/// renderer asks for, so verified callers can compose the two.
pub proof fn lemma_tokenize_plain_wf(text: Seq<char>)
    requires
        text.len() < 0x8000_0000,
    ensures
        tokens_wf(plain_tokens_from(text, 0), text.len() as int),
{
    lemma_plain_tokens_from_wf(text, 0);
}

/// Tokenizes text with no language information: runs of non-newline
/// characters and individual newlines.
pub fn tokenize_plain(text: &Vec<char>) -> (r: Vec<Token>)
    requires
        text@.len() < 0x8000_0000,
    ensures
        r@ == plain_tokens_from(text@, 0),
{
    let mut r: Vec<Token> = Vec::new();
    let mut i: usize = 0;
    while i < text.len()
        invariant
            i <= text@.len(),
            text@.len() < 0x8000_0000,
            plain_tokens_from(text@, 0) == r@ + plain_tokens_from(text@, i as int),
        decreases text.len() - i,
    {
        if text[i] == '\n' {
            let ghost pre = r@;
            r.push(Token { kind: TokenKind::Newline, start: i, end: i + 1 });
            i += 1;
            proof {
                assert(plain_tokens_from(text@, i - 1) == seq![
                    Token { kind: TokenKind::Newline, start: (i - 1) as usize, end: i as usize },
                ] + plain_tokens_from(text@, i as int));
                assert(pre + plain_tokens_from(text@, i - 1) =~= r@ + plain_tokens_from(
                    text@,
                    i as int,
                ));
            }
        } else {
            let ghost start = i as int;
            let ghost pre = r@;
            let mut j: usize = i;
            while j < text.len() && text[j] != '\n'
                invariant
                    start <= j <= text@.len(),
                    text@.len() < 0x8000_0000,
                    next_newline(text@, start) == next_newline(text@, j as int),
                decreases text.len() - j,
            {
                j += 1;
            }
            proof {
                lemma_next_newline(text@, j as int);
                assert(next_newline(text@, j as int) == j as int);
            }
            r.push(Token { kind: TokenKind::PlainText, start: i, end: j });
            proof {
                assert(plain_tokens_from(text@, start) == seq![
                    Token { kind: TokenKind::PlainText, start: start as usize, end: j as usize },
                ] + plain_tokens_from(text@, j as int));
                assert(pre + plain_tokens_from(text@, start) =~= r@ + plain_tokens_from(
                    text@,
                    j as int,
                ));
            }
            i = j;
        }
    }
    r
}

} // verus!
