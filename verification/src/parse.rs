//! Parse lexer tokens into an abstract-syntax tree.
//!
//! The grammar is modeled by [`parse_spec`], a total function over the
//! source characters; the executable [`parse`] is proved to return exactly
//! what it says. The top level is an implicit block: end of input there is
//! success, while end of input inside an open `{ }` is an unclosed block.
//! Nesting is kept as an explicit stack of open blocks rather than by
//! recursion, one level per unclosed `{`.

use vstd::prelude::*;
use crate::item::{
    escape_str, items_view, lemma_items_view, lemma_items_view_push, render_item, render_items,
    Block, BlockItem, BlockItemView, BlockView, StackItem, StackItemView,
};
use crate::lex;
use crate::lex::{lemma_lex_next_consumes, lex_next, Lexer, Token, TokenView};
use crate::text::{all_digits, dec_to_i64, dec_val};

verus! {

/// Possible errors due to a parser operation.
#[derive(PartialEq, Eq, Clone, Debug)]
pub enum Error {
    UnclosedBlock,
    LexError(lex::Error),
}

impl Error {
    /// Whether this error is recoverable if more input is provided: an
    /// unclosed block always is, a lexer error when it says so itself.
    pub fn is_recoverable(&self) -> (r: bool)
        ensures
            r == match *self {
                Error::UnclosedBlock => true,
                Error::LexError(e) => e is IncompleteEscape || e is UnclosedComment || e
                    is UnclosedString,
            },
    {
        match *self {
            Error::UnclosedBlock => true,
            Error::LexError(e) => e.is_recoverable(),
        }
    }
}

/// Append one parsed item to the innermost open block.
pub open spec fn push_item(levels: Seq<Seq<BlockItemView>>, it: BlockItemView) -> Seq<
    Seq<BlockItemView>,
> {
    levels.update(levels.len() - 1, levels.last().push(it))
}

/// Close the innermost open block and append it, as a block literal, to the
/// one around it.
pub open spec fn close_level(levels: Seq<Seq<BlockItemView>>) -> Seq<Seq<BlockItemView>> {
    push_item(
        levels.drop_last(),
        BlockItemView::Literal(StackItemView::Block(BlockView { items: levels.last() })),
    )
}

/// The meaning of one numeric literal token: its value when it is a plain
/// digit run that fits the machine integer; anything else — a decimal
/// point, or a value out of range — cannot be represented in this build
/// and reads as a malformed number.
pub open spec fn int_literal(txt: Seq<char>) -> Result<StackItemView, Error> {
    if txt.len() > 0 && all_digits(txt) && dec_val(txt) <= i64::MAX {
        Ok(StackItemView::Integer(dec_val(txt) as int))
    } else {
        Err(Error::LexError(lex::Error::MalformedNumber))
    }
}

/// The parser: consume tokens one at a time, keeping a stack of open
/// blocks, innermost last. A closing brace at the top level ends the
/// program early, as it ends any block.
pub open spec fn parse_chars(s: Seq<char>, levels: Seq<Seq<BlockItemView>>) -> Result<
    BlockView,
    Error,
>
    recommends
        levels.len() >= 1,
    decreases s.len(),
    via parse_chars_dec
{
    match lex_next(s) {
        None => {
            if levels.len() == 1 {
                Ok(BlockView { items: levels[0] })
            } else {
                Err(Error::UnclosedBlock)
            }
        },
        Some((Err(e), rem)) => Err(Error::LexError(e)),
        Some((Ok(t), rem)) => match t {
            TokenView::Whitespace | TokenView::Comment => parse_chars(rem, levels),
            TokenView::Integer(txt) => match int_literal(txt) {
                Ok(v) => parse_chars(rem, push_item(levels, BlockItemView::Literal(v))),
                Err(e) => Err(e),
            },
            TokenView::Float(txt) => Err(Error::LexError(lex::Error::MalformedNumber)),
            TokenView::Str(txt) => parse_chars(
                rem,
                push_item(levels, BlockItemView::Literal(StackItemView::Str(txt))),
            ),
            TokenView::Symbol(txt) => parse_chars(
                rem,
                push_item(levels, BlockItemView::Literal(StackItemView::Symbol(txt))),
            ),
            TokenView::Call(txt) => parse_chars(rem, push_item(levels, BlockItemView::Call(txt))),
            TokenView::OpenBrace => parse_chars(rem, levels.push(Seq::empty())),
            TokenView::CloseBrace => {
                if levels.len() == 1 {
                    Ok(BlockView { items: levels[0] })
                } else {
                    parse_chars(rem, close_level(levels))
                }
            },
        },
    }
}

#[via_fn]
proof fn parse_chars_dec(s: Seq<char>, levels: Seq<Seq<BlockItemView>>) {
    lemma_lex_next_consumes(s);
}

/// What parsing a whole source yields: a block, or the first error.
pub open spec fn parse_spec(s: Seq<char>) -> Result<BlockView, Error> {
    parse_chars(s, seq![Seq::empty()])
}

/// A call name the lexer could have produced: nonempty, free of whitespace
/// and closing braces, and not starting like any other token.
pub open spec fn wf_name(name: Seq<char>) -> bool {
    &&& name.len() > 0
    &&& forall|i: int| 0 <= i < name.len() ==> !lex::is_ws_or_close(#[trigger] name[i])
    &&& !crate::text::is_digit_char(name[0])
    &&& name[0] != '#'
    &&& name[0] != '('
    &&& name[0] != '"'
    &&& name[0] != '{'
    &&& name[0] != ':'
}

/// A symbol text the lexer could have produced: free of whitespace and
/// closing braces (it may be empty).
pub open spec fn wf_symbol_text(s: Seq<char>) -> bool {
    forall|i: int| 0 <= i < s.len() ==> !lex::is_ws_or_close(#[trigger] s[i])
}

/// A string value the grammar can write back: free of backslashes, the one
/// character with no escape of its own.
pub open spec fn wf_string_text(s: Seq<char>) -> bool {
    forall|i: int| 0 <= i < s.len() ==> #[trigger] s[i] != '\\'
}

/// A runtime value the parser could have produced as a literal: an integer
/// in machine range, a writable string, a symbol, or a block of such items.
/// Booleans are no literals (`true` and `false` are calls), so none occurs.
pub open spec fn wf_value(v: StackItemView) -> bool
    decreases v,
{
    match v {
        StackItemView::Integer(i) => 0 <= i <= i64::MAX,
        StackItemView::Str(s) => wf_string_text(s),
        StackItemView::Boolean(b) => false,
        StackItemView::Symbol(s) => wf_symbol_text(s),
        StackItemView::Block(b) => wf_items(b.items),
    }
}

/// A block item the parser could have produced.
pub open spec fn wf_item(it: BlockItemView) -> bool
    decreases it,
{
    match it {
        BlockItemView::Call(name) => wf_name(name),
        BlockItemView::Literal(v) => wf_value(v),
    }
}

/// A run of block items the parser could have produced.
pub open spec fn wf_items(items: Seq<BlockItemView>) -> bool
    decreases items,
{
    forall|i: int| 0 <= i < items.len() ==> wf_item(#[trigger] items[i])
}

/// Append a whole run of items to the innermost open block.
pub open spec fn append_items(
    levels: Seq<Seq<BlockItemView>>,
    items: Seq<BlockItemView>,
) -> Seq<Seq<BlockItemView>>
    recommends
        levels.len() >= 1,
{
    levels.update(levels.len() - 1, levels.last() + items)
}

/// The rendering of well-formed items never starts with whitespace, so a
/// whitespace run before it ends exactly where it begins.
proof fn lemma_render_starts_nonws(items: Seq<BlockItemView>, rest: Seq<char>)
    requires
        wf_items(items),
        rest.len() == 0 || !lex::is_ws_char(rest[0]),
    ensures
        (render_items(items) + rest).len() == 0 || !lex::is_ws_char((render_items(items)
            + rest)[0]),
{
    let txt = render_items(items) + rest;
    if items.len() == 0 {
        assert(txt =~= rest);
    } else {
        let first = items[0];
        let more = items.drop_first();
        assert(wf_item(first));
        assert(render_items(items) == render_item(first) + seq![' '] + render_items(more));
        let lead = render_item(first);
        assert(txt =~= lead + (seq![' '] + render_items(more) + rest));
        match first {
            BlockItemView::Call(name) => {
                assert(lead == name);
                assert(name.len() > 0);
                assert(txt[0] == name[0]);
                assert(!lex::is_ws_or_close(name[0]));
            },
            BlockItemView::Literal(v) => {
                match v {
                    StackItemView::Integer(i) => {
                        crate::text::lemma_nat_dec_seq(i as nat);
                        assert(lead == crate::text::nat_dec_seq(i as nat));
                        assert(lead.len() > 0);
                        assert(crate::text::is_digit_char(lead[0]));
                        assert(txt[0] == lead[0]);
                    },
                    StackItemView::Str(s) => {
                        assert(lead == seq!['"'] + escape_str(s) + seq!['"']);
                        assert(lead[0] == '"');
                        assert(txt[0] == '"');
                    },
                    StackItemView::Boolean(b) => {},
                    StackItemView::Symbol(s) => {
                        assert(lead == seq![':'] + s);
                        assert(lead[0] == ':');
                        assert(txt[0] == ':');
                    },
                    StackItemView::Block(b) => {
                        assert(lead == seq!['{', ' '] + render_items(b.items) + seq!['}']);
                        assert(lead[0] == '{');
                        assert(txt[0] == '{');
                    },
                }
            },
        }
    }
}

/// Parsing the rendering of well-formed items, before any trailing input
/// that does not begin with whitespace, appends exactly those items to the
/// innermost open block and goes on with the trailing input.
#[verifier::rlimit(60)]
proof fn lemma_parse_render_items(
    items: Seq<BlockItemView>,
    rest: Seq<char>,
    levels: Seq<Seq<BlockItemView>>,
)
    requires
        wf_items(items),
        levels.len() >= 1,
        rest.len() == 0 || !lex::is_ws_char(rest[0]),
    ensures
        parse_chars(render_items(items) + rest, levels) == parse_chars(
            rest,
            append_items(levels, items),
        ),
    decreases items,
{
    if items.len() == 0 {
        assert(render_items(items) + rest =~= rest);
        assert(levels.last() + items =~= levels.last());
        assert(append_items(levels, items) =~= levels);
    } else {
        let first = items[0];
        let more = items.drop_first();
        assert(wf_item(first));
        assert(wf_items(more));
        let onward = render_items(more) + rest;
        let after = seq![' '] + onward;
        let txt = render_items(items) + rest;
        assert(txt =~= render_item(first) + after);
        let levels1 = push_item(levels, first);
        // One token for the item itself.
        match first {
            BlockItemView::Call(name) => {
                assert(txt[0] == name[0]);
                lex::lemma_scan_symbol_concat(name, after, Seq::empty());
                assert(Seq::empty() + name =~= name);
                assert(lex::lex_next(txt) == Some(
                    (Ok::<lex::TokenView, lex::Error>(lex::TokenView::Call(name)), after),
                ));
                assert(parse_chars(txt, levels) == parse_chars(after, levels1));
            },
            BlockItemView::Literal(v) => {
                match v {
                    StackItemView::Integer(i) => {
                        let digits = crate::text::nat_dec_seq(i as nat);
                        crate::text::lemma_nat_dec_seq(i as nat);
                        assert(render_item(first) == digits);
                        assert(txt =~= digits + after);
                        assert(txt[0] == digits[0]);
                        assert(crate::text::is_digit_char(txt[0]));
                        assert(!lex::is_ws_char(txt[0]));
                        lex::lemma_scan_number_concat(digits, after, Seq::empty());
                        assert(Seq::empty() + digits =~= digits);
                        assert(lex::lex_next(txt) == Some(
                            (
                                Ok::<lex::TokenView, lex::Error>(lex::TokenView::Integer(digits)),
                                after,
                            ),
                        ));
                        assert(int_literal(digits) == Ok::<StackItemView, Error>(
                            StackItemView::Integer(i),
                        ));
                        assert(parse_chars(txt, levels) == parse_chars(after, levels1));
                    },
                    StackItemView::Str(sv) => {
                        assert(txt =~= seq!['"'] + (escape_str(sv) + (seq!['"'] + after)));
                        assert(txt[0] == '"');
                        assert(txt.drop_first() =~= escape_str(sv) + (seq!['"'] + after));
                        lex::lemma_scan_string_concat(sv, after, Seq::empty());
                        assert(Seq::empty() + sv =~= sv);
                        assert(lex::lex_next(txt) == Some(
                            (Ok::<lex::TokenView, lex::Error>(lex::TokenView::Str(sv)), after),
                        ));
                        assert(parse_chars(txt, levels) == parse_chars(after, levels1));
                    },
                    StackItemView::Boolean(b) => {
                        assert(false);
                    },
                    StackItemView::Symbol(sv) => {
                        assert(txt =~= seq![':'] + (sv + after));
                        assert(txt[0] == ':');
                        assert(txt.drop_first() =~= sv + after);
                        lex::lemma_scan_symbol_concat(sv, after, Seq::empty());
                        assert(Seq::empty() + sv =~= sv);
                        assert(lex::lex_next(txt) == Some(
                            (Ok::<lex::TokenView, lex::Error>(lex::TokenView::Symbol(sv)), after),
                        ));
                        assert(parse_chars(txt, levels) == parse_chars(after, levels1));
                    },
                    StackItemView::Block(b) => {
                        let closing = seq!['}'] + after;
                        let inner = render_items(b.items) + closing;
                        assert(txt =~= seq!['{'] + (seq![' '] + inner));
                        assert(txt[0] == '{');
                        assert(txt.drop_first() =~= seq![' '] + inner);
                        assert(lex::lex_next(txt) == Some(
                            (Ok::<lex::TokenView, lex::Error>(lex::TokenView::OpenBrace),
                            txt.drop_first()),
                        ));
                        let deeper = levels.push(Seq::empty());
                        assert(parse_chars(txt, levels) == parse_chars(txt.drop_first(), deeper));
                        // The space after the opening brace.
                        assert(closing[0] == '}');
                        lemma_render_starts_nonws(b.items, closing);
                        lex::lemma_skip_ws_space(inner);
                        assert(lex::lex_next(txt.drop_first()) == Some(
                            (Ok::<lex::TokenView, lex::Error>(lex::TokenView::Whitespace), inner),
                        ));
                        assert(parse_chars(txt.drop_first(), deeper) == parse_chars(
                            inner,
                            deeper,
                        ));
                        // The block's own items, by induction.
                        lemma_parse_render_items(b.items, closing, deeper);
                        let filled = append_items(deeper, b.items);
                        assert(parse_chars(inner, deeper) == parse_chars(closing, filled));
                        // The closing brace wraps the level as a literal.
                        assert(filled.len() == levels.len() + 1);
                        assert(filled.len() >= 2);
                        assert(closing[0] == '}');
                        assert(closing.drop_first() =~= after);
                        assert(lex::lex_next(closing) == Some(
                            (Ok::<lex::TokenView, lex::Error>(lex::TokenView::CloseBrace), after),
                        ));
                        assert(parse_chars(closing, filled) == parse_chars(
                            after,
                            close_level(filled),
                        ));
                        assert(filled.last() =~= b.items);
                        assert(filled.drop_last() =~= levels);
                        assert(BlockView { items: filled.last() } =~= b);
                        assert(close_level(filled) =~= levels1);
                    },
                }
            },
        }
        // The separating space, then the remaining items by induction.
        lemma_render_starts_nonws(more, rest);
        lex::lemma_skip_ws_space(onward);
        assert(after[0] == ' ');
        assert(lex::is_ws_char(' '));
        assert(after.drop_first() =~= onward);
        assert(lex::lex_next(after) == Some(
            (Ok::<lex::TokenView, lex::Error>(lex::TokenView::Whitespace), onward),
        ));
        assert(parse_chars(after, levels1) == parse_chars(onward, levels1));
        lemma_parse_render_items(more, rest, levels1);
        assert(parse_chars(onward, levels1) == parse_chars(rest, append_items(levels1, more)));
        assert(levels1.last() + more =~= levels.last() + items);
        assert(append_items(levels1, more) =~= append_items(levels, items));
    }
}

/// Rendering a well-formed block and parsing the text back yields the very
/// same block: parsing is idempotent over its own rendering.
pub proof fn lemma_render_then_parse(b: BlockView)
    requires
        wf_items(b.items),
    ensures
        parse_spec(render_items(b.items)) == Ok::<BlockView, Error>(b),
{
    lemma_parse_render_items(b.items, Seq::empty(), seq![Seq::empty()]);
    assert(render_items(b.items) + Seq::<char>::empty() =~= render_items(b.items));
    let lv = append_items(seq![Seq::<BlockItemView>::empty()], b.items);
    assert(lv.len() == 1);
    assert(lv[0] =~= b.items);
    assert(lex::lex_next(Seq::<char>::empty()) is None);
    assert(parse_chars(Seq::empty(), lv) == Ok::<BlockView, Error>(BlockView { items: lv[0] }));
    assert(BlockView { items: lv[0] } =~= b);
}

/// Whatever the parser yields is well-formed, provided every open block
/// holds well-formed items so far.
proof fn lemma_parse_chars_wf(s: Seq<char>, levels: Seq<Seq<BlockItemView>>)
    requires
        levels.len() >= 1,
        forall|l: int| 0 <= l < levels.len() ==> wf_items(#[trigger] levels[l]),
    ensures
        parse_chars(s, levels) matches Ok(b) ==> wf_items(b.items),
    decreases s.len(),
{
    lemma_lex_next_consumes(s);
    if s.len() == 0 {
        if levels.len() == 1 {
            assert(wf_items(levels[0]));
        }
    } else {
        let c = s[0];
        let tail = s.drop_first();
        if lex::is_ws_char(c) {
            lemma_parse_chars_wf(lex::skip_ws(tail), levels);

        } else if crate::text::is_digit_char(c) {
            let (res, rem) = lex::scan_number(s, Seq::empty(), false);
            lex::lemma_scan_number_shape(s, Seq::empty(), false);
            match res {
                Ok(t) => {
                    match t {
                        TokenView::Integer(txt) => {
                            match int_literal(txt) {
                                Ok(v) => {
                                    assert(wf_item(BlockItemView::Literal(v)));
                                    lemma_push_item_wf(levels, BlockItemView::Literal(v));
                                    lemma_parse_chars_wf(
                                        rem,
                                        push_item(levels, BlockItemView::Literal(v)),
                                    );
                                },
                                Err(e) => {},
                            }
                        },
                        TokenView::Float(txt) => {},
                        _ => {
                            assert(false);
                        },
                    }
                },
                Err(e) => {},
            }

        } else if c == '#' {
            lemma_parse_chars_wf(lex::skip_line_comment(tail), levels);

        } else if c == '(' {
            let (res, rem) = lex::scan_multi_comment(tail);
            match res {
                Ok(u) => {
                    lemma_parse_chars_wf(rem, levels);
                },
                Err(e) => {},
            }
        } else if c == '"' {
            let (res, rem) = lex::scan_string(tail, Seq::empty());
            match res {
                Ok(txt) => {
                    lex::lemma_scan_string_no_backslash(tail, Seq::empty());
                    let it = BlockItemView::Literal(StackItemView::Str(txt));
                    assert(wf_item(it));
                    lemma_push_item_wf(levels, it);
                    lemma_parse_chars_wf(rem, push_item(levels, it));
                },
                Err(e) => {},
            }

        } else if c == '{' {
            lemma_parse_chars_wf(tail, levels.push(Seq::empty()));


        } else if c == '}' {
            if levels.len() == 1 {
                assert(wf_items(levels[0]));
            }
            if levels.len() > 1 {
                let it = BlockItemView::Literal(
                    StackItemView::Block(BlockView { items: levels.last() }),
                );
                assert(wf_item(it));
                lemma_push_item_wf(levels.drop_last(), it);
                lemma_parse_chars_wf(tail, close_level(levels));
            }

        } else if c == ':' {
            let (txt, rem) = lex::scan_symbol(tail, Seq::empty());
            lex::lemma_scan_symbol_chars(tail, Seq::empty());
            let it = BlockItemView::Literal(StackItemView::Symbol(txt));
            assert(wf_item(it));
            lemma_push_item_wf(levels, it);
            lemma_parse_chars_wf(rem, push_item(levels, it));

        } else {
            let (txt, rem) = lex::scan_symbol(s, Seq::empty());
            assert(lex::scan_symbol(s, Seq::empty()) == lex::scan_symbol(
                tail,
                Seq::empty().push(c),
            ));
            lex::lemma_scan_symbol_chars(tail, Seq::empty().push(c));
            assert(txt.len() >= 1);
            assert(txt[0] == c);
            assert(wf_name(txt));
            let it = BlockItemView::Call(txt);
            lemma_push_item_wf(levels, it);
            lemma_parse_chars_wf(rem, push_item(levels, it));

        }
    }
}

/// Appending one well-formed item to well-formed open blocks keeps every
/// block well-formed.
proof fn lemma_push_item_wf(levels: Seq<Seq<BlockItemView>>, it: BlockItemView)
    requires
        levels.len() >= 1,
        forall|l: int| 0 <= l < levels.len() ==> wf_items(#[trigger] levels[l]),
        wf_item(it),
    ensures
        forall|l: int|
            0 <= l < push_item(levels, it).len() ==> wf_items(#[trigger] push_item(levels, it)[l]),
{
    let lv = push_item(levels, it);
    assert forall|l: int| 0 <= l < lv.len() implies wf_items(#[trigger] lv[l]) by {
        if l == levels.len() - 1 {
            let grown = levels.last().push(it);
            assert forall|i: int| 0 <= i < grown.len() implies wf_item(#[trigger] grown[i]) by {
                if i < grown.len() - 1 {
                    assert(grown[i] == levels.last()[i]);
                    assert(wf_items(levels.last()));
                }
            }
            assert(lv[l] == grown);
        } else {
            assert(lv[l] == levels[l]);
        }
    }
}

/// Every block that comes out of parsing is well-formed.
pub proof fn lemma_parse_spec_wf(s: Seq<char>)
    ensures
        parse_spec(s) matches Ok(b) ==> wf_items(b.items),
{
    let lv = seq![Seq::<BlockItemView>::empty()];
    assert(forall|l: int| 0 <= l < lv.len() ==> wf_items(#[trigger] lv[l]));
    lemma_parse_chars_wf(s, lv);
}

/// For every source that parses, rendering the parsed block and parsing
/// the text again yields a structurally equal block.
pub proof fn lemma_parse_round_trip(s: Seq<char>, b: BlockView)
    requires
        parse_spec(s) == Ok::<BlockView, Error>(b),
    ensures
        parse_spec(render_items(b.items)) == Ok::<BlockView, Error>(b),
{
    lemma_parse_spec_wf(s);
    lemma_render_then_parse(b);
}

/// The models of a stack of open blocks, innermost last.
pub open spec fn levels_view(stack: Seq<Vec<BlockItem>>, cur: Seq<BlockItem>) -> Seq<
    Seq<BlockItemView>,
> {
    Seq::new(stack.len(), |i: int| items_view(stack[i]@)).push(items_view(cur))
}

/// Attempt to parse a source string.
pub fn parse(src: &str) -> (r: Result<Block, Error>)
    ensures
        match r {
            Ok(b) => parse_spec(src@) == Ok::<BlockView, Error>(b@),
            Err(e) => parse_spec(src@) == Err::<BlockView, Error>(e),
        },
{
    let mut lexer = Lexer::new(src);
    let mut cur: Vec<BlockItem> = Vec::new();
    let mut open: Vec<Vec<BlockItem>> = Vec::new();
    proof {
        assert(items_view(cur@) == Seq::<BlockItemView>::empty());
        assert(levels_view(open@, cur@) =~= seq![Seq::<BlockItemView>::empty()]);
    }
    loop
        invariant
            lexer.wf(),
            parse_chars(src@, seq![Seq::empty()]) == parse_chars(
                lexer@,
                levels_view(open@, cur@),
            ),
        decreases lexer@.len(),
    {
        let ghost pre = lexer@;
        let ghost lv = levels_view(open@, cur@);
        proof {
            lemma_lex_next_consumes(pre);
        }
        let token = match lexer.next_token() {
            None => {
                if open.len() == 0 {
                    proof {
                        assert(lv.len() == 1);
                        assert(lv[0] == items_view(cur@));
                        lemma_items_view(cur@);
                    }
                    return Ok(Block(cur));
                } else {
                    proof {
                        assert(lv.len() == open@.len() + 1);
                    }
                    return Err(Error::UnclosedBlock);
                }
            },
            Some(t) => match t {
                Ok(t) => t,
                Err(e) => {
                    return Err(Error::LexError(e));
                },
            },
        };
        match token {
            Token::Integer(s) => {
                match dec_to_i64(s.as_str()) {
                    Some(v) => {
                        let it = BlockItem::Literal(StackItem::Integer(v));
                        proof {
                            let itv = it@;
                            lemma_items_view_push(cur@, it);
                            assert(levels_view(open@, cur@.push(it)) =~= push_item(lv, itv));
                        }
                        cur.push(it);
                    },
                    None => {
                        return Err(Error::LexError(lex::Error::MalformedNumber));
                    },
                }
            },
            Token::Float(s) => {
                return Err(Error::LexError(lex::Error::MalformedNumber));
            },
            Token::String(s) => {
                let it = BlockItem::Literal(StackItem::String(s));
                proof {
                    let itv = it@;
                    lemma_items_view_push(cur@, it);
                    assert(levels_view(open@, cur@.push(it)) =~= push_item(lv, itv));
                }
                cur.push(it);
            },
            Token::Symbol(s) => {
                let it = BlockItem::Literal(StackItem::Symbol(s));
                proof {
                    let itv = it@;
                    lemma_items_view_push(cur@, it);
                    assert(levels_view(open@, cur@.push(it)) =~= push_item(lv, itv));
                }
                cur.push(it);
            },
            Token::Call(s) => {
                let it = BlockItem::Call(s);
                proof {
                    let itv = it@;
                    lemma_items_view_push(cur@, it);
                    assert(levels_view(open@, cur@.push(it)) =~= push_item(lv, itv));
                }
                cur.push(it);
            },
            Token::OpenBrace => {
                open.push(cur);
                cur = Vec::new();
                proof {
                    assert(levels_view(open@, cur@) =~= lv.push(Seq::empty()));
                }
            },
            Token::CloseBrace => {
                if open.len() == 0 {
                    proof {
                        assert(lv.len() == 1);
                        assert(lv[0] == items_view(cur@));
                        lemma_items_view(cur@);
                    }
                    return Ok(Block(cur));
                } else {
                    let inner = cur;
                    cur = open.pop().unwrap();
                    let it = BlockItem::Literal(StackItem::Block(Block(inner)));
                    proof {
                        let itv = it@;
                        lemma_items_view_push(cur@, it);
                        assert(levels_view(open@, cur@.push(it)) =~= close_level(lv));
                    }
                    cur.push(it);
                }
            },
            Token::Whitespace | Token::Comment => {},
        }
    }
}

} // verus!
