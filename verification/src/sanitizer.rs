use crate::error::{SyntaxError, SyntaxErrorView};
use crate::lexeme::{Lexeme, LexemeView};
use crate::scanner::queue_result_view;
use crate::token::{token_views, Token, TokenView};
use std::collections::VecDeque;
use vstd::prelude::*;

verus! {

/// How many tokens at the front of `tokens` are blank: spaces, comments and
/// newlines.
pub open spec fn blank_prefix_len(tokens: Seq<TokenView>) -> nat
    decreases tokens.len(),
{
    if tokens.len() > 0 && tokens[0].lexeme.is_blank() {
        1 + blank_prefix_len(tokens.drop_first())
    } else {
        0
    }
}

/// The place behind the last newline among the first `limit` tokens, or 0
/// where none of them is a newline.
pub open spec fn last_newline_end(tokens: Seq<TokenView>, limit: nat) -> nat
    decreases limit,
{
    if limit == 0 {
        0
    } else if tokens[limit - 1].lexeme is Newline {
        limit
    } else {
        last_newline_end(tokens, (limit - 1) as nat)
    }
}

/// How many tokens the blank lines at the front of `tokens` take: the blank
/// tokens up to their last newline. What follows that newline opens the
/// next line with content and stays.
pub open spec fn blank_lines_len(tokens: Seq<TokenView>) -> nat {
    last_newline_end(tokens, blank_prefix_len(tokens))
}

/// `tokens` without the blank lines at its front.
pub open spec fn after_blank_lines(tokens: Seq<TokenView>) -> Seq<TokenView> {
    tokens.skip(blank_lines_len(tokens) as int)
}

pub proof fn lemma_blank_prefix_len(tokens: Seq<TokenView>)
    ensures
        blank_prefix_len(tokens) <= tokens.len(),
        forall|i: int| 0 <= i < blank_prefix_len(tokens) ==> (#[trigger] tokens[i]).lexeme.is_blank(),
        blank_prefix_len(tokens) < tokens.len() ==> !tokens[blank_prefix_len(
            tokens,
        ) as int].lexeme.is_blank(),
    decreases tokens.len(),
{
    if tokens.len() > 0 && tokens[0].lexeme.is_blank() {
        let rest = tokens.drop_first();
        lemma_blank_prefix_len(rest);
        assert forall|i: int| 0 <= i < blank_prefix_len(tokens) implies (#[trigger] tokens[i]).lexeme.is_blank() by {
            if i > 0 {
                assert(tokens[i] == rest[i - 1]);
            }
        }
        if blank_prefix_len(tokens) < tokens.len() {
            assert(tokens[blank_prefix_len(tokens) as int] == rest[blank_prefix_len(rest) as int]);
        }
    }
}

pub proof fn lemma_last_newline_end(tokens: Seq<TokenView>, limit: nat)
    ensures
        last_newline_end(tokens, limit) <= limit,
    decreases limit,
{
    if limit > 0 && !(tokens[limit - 1].lexeme is Newline) {
        lemma_last_newline_end(tokens, (limit - 1) as nat);
    }
}

/// The blank lines at the front never take more tokens than there are.
pub proof fn lemma_blank_lines_len(tokens: Seq<TokenView>)
    ensures
        blank_lines_len(tokens) <= blank_prefix_len(tokens) <= tokens.len(),
{
    lemma_blank_prefix_len(tokens);
    lemma_last_newline_end(tokens, blank_prefix_len(tokens));
}

/// Blank lines that start with a newline take at least that newline.
pub proof fn lemma_blank_lines_start_with_newline(tokens: Seq<TokenView>)
    requires
        tokens.len() > 0,
        tokens[0].lexeme is Newline,
    ensures
        1 <= blank_lines_len(tokens) <= tokens.len(),
        after_blank_lines(tokens).len() < tokens.len(),
{
    lemma_blank_lines_len(tokens);
    lemma_newline_in_blank_prefix(tokens, blank_prefix_len(tokens), 0);
}

/// A newline among the first `limit` tokens puts the end of the blank lines
/// behind it.
pub proof fn lemma_newline_in_blank_prefix(tokens: Seq<TokenView>, limit: nat, at: int)
    requires
        0 <= at < limit,
        tokens[at].lexeme is Newline,
    ensures
        last_newline_end(tokens, limit) > at,
    decreases limit,
{
    if !(tokens[limit - 1].lexeme is Newline) {
        lemma_newline_in_blank_prefix(tokens, (limit - 1) as nat, at);
    }
}

/// The block marker that opens a block.
pub open spec fn indent_token() -> TokenView {
    TokenView::synthetic(LexemeView::Indent)
}

/// The block marker that closes a block.
pub open spec fn dedent_token() -> TokenView {
    TokenView::synthetic(LexemeView::Dedent)
}

/// `count` closing block markers in a row.
pub open spec fn dedents(count: int) -> Seq<TokenView> {
    Seq::new(
        if count > 0 {
            count as nat
        } else {
            0
        },
        |i: int| dedent_token(),
    )
}

/// The indentation stack as it must be: width 0 at the bottom, and every
/// width greater than the one below it.
pub open spec fn well_formed_indents(stack: Seq<usize>) -> bool {
    &&& stack.len() > 0
    &&& stack[0] == 0
    &&& forall|i: int, j: int| 0 <= i < j < stack.len() ==> stack[i] < stack[j]
}

/// `stack` after widths were popped from its top until `width` is on top;
/// empty where `width` is not on the stack.
pub open spec fn unwind(stack: Seq<usize>, width: usize) -> Seq<usize>
    decreases stack.len(),
{
    if stack.len() == 0 || stack.last() == width {
        stack
    } else {
        unwind(stack.drop_last(), width)
    }
}

/// The width at which a line starts whose first token is `front`: that of
/// its leading spaces, or 0 where content starts the line.
pub open spec fn line_width(front: LexemeView) -> usize {
    match front {
        LexemeView::Spaces(width) => width,
        _ => 0,
    }
}

/// What the start of a line does to the indentation stack, and the block
/// markers that it gives. A line wider than the top of the stack opens a
/// block, a line as wide as the top changes nothing, and a narrower line
/// closes one block for every width above its own. If its own width is not
/// on the stack, the line is refused.
pub open spec fn offside_step(stack: Seq<usize>, front: TokenView) -> Result<
    (Seq<usize>, Seq<TokenView>),
    SyntaxErrorView,
> {
    let width = line_width(front.lexeme);
    if stack.last() < width {
        Ok((stack.push(width), seq![indent_token()]))
    } else {
        let kept = unwind(stack, width);
        if kept.len() == 0 {
            Err(SyntaxErrorView::inconsistent_dedent(front))
        } else {
            Ok((kept, dedents(stack.len() - kept.len())))
        }
    }
}

/// The normalised tokens of `queue`, read with the indentation stack `stack`
/// after `output` was already given out, together with what is left of
/// `queue`: nothing, unless a line was refused.
///
/// Spaces and comments are dropped and other tokens pass through. At a
/// newline the blank lines behind it are dropped too, one newline is given
/// out, and the line that follows sets the block markers. At the end every
/// block that is still open is closed.
pub open spec fn offside_run(
    queue: Seq<TokenView>,
    stack: Seq<usize>,
    output: Seq<TokenView>,
) -> (Result<Seq<TokenView>, SyntaxErrorView>, Seq<TokenView>)
    decreases queue.len(),
{
    if queue.len() == 0 {
        (Ok(output + dedents(stack.len() - 1)), queue)
    } else if queue[0].lexeme is Newline {
        let rest = after_blank_lines(queue);
        let output = output.push(TokenView::synthetic(LexemeView::Newline));
        if rest.len() == 0 {
            (Ok(output + dedents(stack.len() - 1)), rest)
        } else {
            proof {
                lemma_blank_lines_start_with_newline(queue);
            }
            match offside_step(stack, rest[0]) {
                Err(error) => (Err(error), rest),
                Ok((stack, markers)) => offside_run(rest, stack, output + markers),
            }
        }
    } else if queue[0].lexeme.is_filler() {
        offside_run(queue.drop_first(), stack, output)
    } else {
        offside_run(queue.drop_first(), stack, output.push(queue[0]))
    }
}

/// The normalised form of the raw tokens `raw`, together with what is left
/// unread of them.
///
/// Blank lines before the first content are dropped. If any token is left, a
/// newline is put behind the last one, so that the last line is read as
/// every other, and the tokens are read from an indentation stack that
/// holds width 0 alone.
pub open spec fn sanitized(raw: Seq<TokenView>) -> (
    Result<Seq<TokenView>, SyntaxErrorView>,
    Seq<TokenView>,
) {
    let queue = after_blank_lines(raw);
    if queue.len() == 0 {
        (Ok(Seq::empty()), queue)
    } else {
        offside_run(queue.push(TokenView::synthetic(LexemeView::Newline)), seq![0usize], Seq::empty())
    }
}

/// How many of `tokens` have the lexeme `marker`.
pub open spec fn marker_count(tokens: Seq<TokenView>, marker: LexemeView) -> nat
    decreases tokens.len(),
{
    if tokens.len() == 0 {
        0
    } else {
        marker_count(tokens.drop_last(), marker) + if tokens.last().lexeme == marker {
            1nat
        } else {
            0nat
        }
    }
}

/// Whether none of `tokens` is a block marker.
pub open spec fn has_no_offside_marker(tokens: Seq<TokenView>) -> bool {
    forall|i: int| 0 <= i < tokens.len() ==> !(#[trigger] tokens[i]).lexeme.is_offside_marker()
}

pub proof fn lemma_marker_count_concat(
    left: Seq<TokenView>,
    right: Seq<TokenView>,
    marker: LexemeView,
)
    ensures
        marker_count(left + right, marker) == marker_count(left, marker) + marker_count(
            right,
            marker,
        ),
    decreases right.len(),
{
    if right.len() == 0 {
        assert(left + right =~= left);
    } else {
        assert((left + right).drop_last() =~= left + right.drop_last());
        lemma_marker_count_concat(left, right.drop_last(), marker);
    }
}

pub proof fn lemma_marker_count_dedents(count: int, marker: LexemeView)
    ensures
        marker_count(dedents(count), marker) == if marker == LexemeView::Dedent && count > 0 {
            count as nat
        } else {
            0nat
        },
    decreases count,
{
    if count > 0 {
        assert(dedents(count).drop_last() =~= dedents(count - 1));
        lemma_marker_count_dedents(count - 1, marker);
    }
}

/// Popping keeps a well-formed stack well-formed as long as a width is left,
/// and what is left has `width` on top.
pub proof fn lemma_unwind(stack: Seq<usize>, width: usize)
    requires
        well_formed_indents(stack),
    ensures
        unwind(stack, width).len() <= stack.len(),
        unwind(stack, width).len() > 0 ==> well_formed_indents(unwind(stack, width)) && unwind(
            stack,
            width,
        ).last() == width,
        unwind(stack, width).len() == 0 <==> !stack.contains(width),
    decreases stack.len(),
{
    if stack.last() != width {
        let below = stack.drop_last();
        if below.len() > 0 {
            lemma_unwind(below, width);
            if stack.contains(width) {
                let i = choose|i: int| 0 <= i < stack.len() && stack[i] == width;
                assert(below[i] == width);
            }
            if below.contains(width) {
                let i = choose|i: int| 0 <= i < below.len() && below[i] == width;
                assert(stack[i] == width);
            }
        } else {
            if stack.contains(width) {
                let i = choose|i: int| 0 <= i < stack.len() && stack[i] == width;
                assert(i == 0);
            }
        }
    } else {
        assert(stack[stack.len() - 1] == width);
    }
}

/// A line that goes back to a width that is not on the indentation stack is
/// refused as an inconsistent dedent, and no other line is refused.
pub proof fn lemma_inconsistent_dedent(stack: Seq<usize>, front: TokenView)
    requires
        well_formed_indents(stack),
    ensures
        offside_step(stack, front) is Err <==> line_width(front.lexeme) < stack.last()
            && !stack.contains(line_width(front.lexeme)),
        offside_step(stack, front) is Err ==> offside_step(stack, front)
            == Err::<(Seq<usize>, Seq<TokenView>), SyntaxErrorView>(
            SyntaxErrorView::inconsistent_dedent(front),
        ),
{
    let width = line_width(front.lexeme);
    lemma_unwind(stack, width);
    if stack.last() < width {
        if stack.contains(width) {
            let i = choose|i: int| 0 <= i < stack.len() && stack[i] == width;
            assert(stack[i] <= stack[stack.len() - 1]);
        }
    } else if stack.last() == width {
        assert(stack[stack.len() - 1] == width);
    }
}

/// The start of a line leaves the stack well-formed, and the blocks that it
/// opens and closes are the ones by which the stack grows and shrinks.
pub proof fn lemma_offside_step(stack: Seq<usize>, front: TokenView)
    requires
        well_formed_indents(stack),
    ensures
        offside_step(stack, front) matches Ok((next, markers)) ==> well_formed_indents(next)
            && next.len() + marker_count(markers, LexemeView::Dedent) == stack.len()
            + marker_count(markers, LexemeView::Indent),
{
    let width = line_width(front.lexeme);
    lemma_unwind(stack, width);
    if stack.last() < width {
        let next = stack.push(width);
        let markers = seq![indent_token()];
        reveal_with_fuel(marker_count, 2);
        assert(markers.drop_last() =~= Seq::empty());
        assert(marker_count(markers, LexemeView::Indent) == 1);
        assert(marker_count(markers, LexemeView::Dedent) == 0);
    } else {
        let kept = unwind(stack, width);
        lemma_marker_count_dedents(stack.len() - kept.len(), LexemeView::Dedent);
        lemma_marker_count_dedents(stack.len() - kept.len(), LexemeView::Indent);
    }
}

/// Read from a well-formed stack, raw tokens without block markers give as
/// many opening as closing markers, counted with those that `output` holds
/// for the blocks that are open.
pub proof fn lemma_offside_run_balanced(
    queue: Seq<TokenView>,
    stack: Seq<usize>,
    output: Seq<TokenView>,
)
    requires
        well_formed_indents(stack),
        has_no_offside_marker(queue),
        marker_count(output, LexemeView::Indent) + 1 == marker_count(output, LexemeView::Dedent)
            + stack.len(),
    ensures
        offside_run(queue, stack, output).0 matches Ok(tokens) ==> marker_count(
            tokens,
            LexemeView::Indent,
        ) == marker_count(tokens, LexemeView::Dedent),
    decreases queue.len(),
{
    let closing = dedents(stack.len() - 1);
    if queue.len() == 0 {
        lemma_marker_count_concat(output, closing, LexemeView::Indent);
        lemma_marker_count_concat(output, closing, LexemeView::Dedent);
        lemma_marker_count_dedents(stack.len() - 1, LexemeView::Indent);
        lemma_marker_count_dedents(stack.len() - 1, LexemeView::Dedent);
    } else if queue[0].lexeme is Newline {
        lemma_blank_lines_len(queue);
        let rest = after_blank_lines(queue);
        let with_newline = output.push(TokenView::synthetic(LexemeView::Newline));
        assert(with_newline.drop_last() =~= output);
        lemma_blank_lines_start_with_newline(queue);
        if rest.len() == 0 {
            lemma_marker_count_concat(with_newline, closing, LexemeView::Indent);
            lemma_marker_count_concat(with_newline, closing, LexemeView::Dedent);
            lemma_marker_count_dedents(stack.len() - 1, LexemeView::Indent);
            lemma_marker_count_dedents(stack.len() - 1, LexemeView::Dedent);
        } else {
            lemma_offside_step(stack, rest[0]);
            match offside_step(stack, rest[0]) {
                Err(error) => {},
                Ok((next, markers)) => {
                    lemma_marker_count_concat(with_newline, markers, LexemeView::Indent);
                    lemma_marker_count_concat(with_newline, markers, LexemeView::Dedent);
                    lemma_offside_run_balanced(rest, next, with_newline + markers);
                },
            }
        }
    } else if queue[0].lexeme.is_filler() {
        lemma_offside_run_balanced(queue.drop_first(), stack, output);
    } else {
        let with_token = output.push(queue[0]);
        assert(with_token.drop_last() =~= output);
        lemma_offside_run_balanced(queue.drop_first(), stack, with_token);
    }
}

/// How many blocks `tokens` leave open: the opening markers less the closing
/// ones.
pub open spec fn depth(tokens: Seq<TokenView>) -> int {
    marker_count(tokens, LexemeView::Indent) - marker_count(tokens, LexemeView::Dedent)
}

/// Whether the block markers of `tokens` nest: no closing marker stands
/// where no block is open.
pub open spec fn well_nested(tokens: Seq<TokenView>) -> bool
    decreases tokens.len(),
{
    tokens.len() == 0 || (well_nested(tokens.drop_last()) && depth(tokens) >= 0)
}

/// Whether none of `tokens` is a run of spaces or a comment.
pub open spec fn has_no_filler(tokens: Seq<TokenView>) -> bool {
    forall|i: int| 0 <= i < tokens.len() ==> !(#[trigger] tokens[i]).lexeme.is_filler()
}

/// Closing no more blocks than are open keeps the markers nested.
pub proof fn lemma_well_nested_dedents(tokens: Seq<TokenView>, count: int)
    requires
        well_nested(tokens),
        0 <= count <= depth(tokens),
    ensures
        well_nested(tokens + dedents(count)),
        depth(tokens + dedents(count)) == depth(tokens) - count,
    decreases count,
{
    lemma_marker_count_concat(tokens, dedents(count), LexemeView::Indent);
    lemma_marker_count_concat(tokens, dedents(count), LexemeView::Dedent);
    lemma_marker_count_dedents(count, LexemeView::Indent);
    lemma_marker_count_dedents(count, LexemeView::Dedent);
    if count == 0 {
        assert(tokens + dedents(count) =~= tokens);
    } else {
        lemma_well_nested_dedents(tokens, count - 1);
        assert((tokens + dedents(count)).drop_last() =~= tokens + dedents(count - 1));
    }
}

/// A token that closes no block keeps the markers nested.
pub proof fn lemma_well_nested_push(tokens: Seq<TokenView>, token: TokenView)
    requires
        well_nested(tokens),
        depth(tokens) >= 0,
        !(token.lexeme is Dedent),
    ensures
        well_nested(tokens.push(token)),
        depth(tokens.push(token)) == depth(tokens) + if token.lexeme is Indent {
            1int
        } else {
            0int
        },
{
    assert(tokens.push(token).drop_last() =~= tokens);
}

/// Read from a well-formed stack, raw tokens without block markers give
/// markers that nest and leave no block open, and neither spaces nor
/// comments.
pub proof fn lemma_offside_run_nested(
    queue: Seq<TokenView>,
    stack: Seq<usize>,
    output: Seq<TokenView>,
)
    requires
        well_formed_indents(stack),
        has_no_offside_marker(queue),
        well_nested(output),
        has_no_filler(output),
        depth(output) == stack.len() - 1,
    ensures
        offside_run(queue, stack, output).0 matches Ok(tokens) ==> well_nested(tokens) && depth(
            tokens,
        ) == 0 && has_no_filler(tokens),
    decreases queue.len(),
{
    if queue.len() == 0 {
        lemma_well_nested_dedents(output, stack.len() - 1);
    } else if queue[0].lexeme is Newline {
        lemma_blank_lines_start_with_newline(queue);
        let rest = after_blank_lines(queue);
        let newline = TokenView::synthetic(LexemeView::Newline);
        let with_newline = output.push(newline);
        lemma_well_nested_push(output, newline);
        if rest.len() == 0 {
            lemma_well_nested_dedents(with_newline, stack.len() - 1);
        } else {
            lemma_offside_step(stack, rest[0]);
            lemma_unwind(stack, line_width(rest[0].lexeme));
            match offside_step(stack, rest[0]) {
                Err(error) => {},
                Ok((next, markers)) => {
                    if stack.last() < line_width(rest[0].lexeme) {
                        lemma_well_nested_push(with_newline, indent_token());
                        assert(with_newline + markers =~= with_newline.push(indent_token()));
                    } else {
                        lemma_well_nested_dedents(with_newline, stack.len() - next.len());
                    }
                    lemma_offside_run_nested(rest, next, with_newline + markers);
                },
            }
        }
    } else if queue[0].lexeme.is_filler() {
        lemma_offside_run_nested(queue.drop_first(), stack, output);
    } else {
        lemma_well_nested_push(output, queue[0]);
        lemma_offside_run_nested(queue.drop_first(), stack, output.push(queue[0]));
    }
}

/// Whatever the indentation, the normalised tokens of raw tokens that hold
/// no block markers hold neither spaces nor comments, and their block
/// markers nest: every block that is opened is closed, and none is closed
/// that was not opened.
pub proof fn lemma_sanitized_nested(raw: Seq<TokenView>)
    requires
        has_no_offside_marker(raw),
    ensures
        sanitized(raw).0 matches Ok(tokens) ==> well_nested(tokens) && depth(tokens) == 0
            && has_no_filler(tokens),
{
    lemma_blank_lines_len(raw);
    let queue = after_blank_lines(raw);
    if queue.len() > 0 {
        let full = queue.push(TokenView::synthetic(LexemeView::Newline));
        assert(has_no_offside_marker(full)) by {
            assert forall|i: int| 0 <= i < full.len() implies !(#[trigger] full[i]).lexeme.is_offside_marker() by {
                if i < queue.len() {
                    assert(full[i] == raw[i + blank_lines_len(raw)]);
                }
            }
        }
        lemma_offside_run_nested(full, seq![0usize], Seq::empty());
    }
}

/// A line that goes back to a width that is not on the indentation stack
/// ends the whole run with an inconsistent dedent, whatever was read before
/// it and whatever follows it.
pub proof fn lemma_run_refuses_inconsistent_dedent(
    queue: Seq<TokenView>,
    stack: Seq<usize>,
    output: Seq<TokenView>,
)
    requires
        well_formed_indents(stack),
        queue.len() > 0,
        queue[0].lexeme is Newline,
        after_blank_lines(queue).len() > 0,
        after_blank_lines(queue)[0].lexeme matches LexemeView::Spaces(width) && width
            < stack.last() && !stack.contains(width),
    ensures
        offside_run(queue, stack, output) == (
            Err::<Seq<TokenView>, SyntaxErrorView>(
                SyntaxErrorView::inconsistent_dedent(after_blank_lines(queue)[0]),
            ),
            after_blank_lines(queue),
        ),
{
    lemma_inconsistent_dedent(stack, after_blank_lines(queue)[0]);
}

/// The tokens of `tokens` that carry the program: all but the spaces, the
/// comments, the newlines and the block markers, in their order.
pub open spec fn content_of(tokens: Seq<TokenView>) -> Seq<TokenView>
    decreases tokens.len(),
{
    if tokens.len() == 0 {
        Seq::empty()
    } else if tokens.last().lexeme.is_blank() || tokens.last().lexeme.is_offside_marker() {
        content_of(tokens.drop_last())
    } else {
        content_of(tokens.drop_last()).push(tokens.last())
    }
}

pub proof fn lemma_content_concat(left: Seq<TokenView>, right: Seq<TokenView>)
    ensures
        content_of(left + right) == content_of(left) + content_of(right),
    decreases right.len(),
{
    if right.len() == 0 {
        assert(left + right =~= left);
        assert(content_of(left) + content_of(right) =~= content_of(left));
    } else {
        assert((left + right).drop_last() =~= left + right.drop_last());
        lemma_content_concat(left, right.drop_last());
        assert(content_of(left + right) =~= content_of(left) + content_of(right));
    }
}

/// Tokens that are all blank or block markers carry nothing.
pub proof fn lemma_content_of_filler(tokens: Seq<TokenView>)
    requires
        forall|i: int|
            0 <= i < tokens.len() ==> (#[trigger] tokens[i]).lexeme.is_blank()
                || tokens[i].lexeme.is_offside_marker(),
    ensures
        content_of(tokens) == Seq::<TokenView>::empty(),
    decreases tokens.len(),
{
    if tokens.len() > 0 {
        let earlier = tokens.drop_last();
        assert forall|i: int| 0 <= i < earlier.len() implies (#[trigger] earlier[i]).lexeme.is_blank()
            || earlier[i].lexeme.is_offside_marker() by {
            assert(earlier[i] == tokens[i]);
        }
        lemma_content_of_filler(earlier);
        assert(tokens.last() == tokens[tokens.len() - 1]);
    }
}

/// Dropping the blank lines at the front drops nothing that carries the
/// program.
pub proof fn lemma_content_after_blank_lines(tokens: Seq<TokenView>)
    ensures
        content_of(after_blank_lines(tokens)) == content_of(tokens),
{
    lemma_blank_lines_len(tokens);
    lemma_blank_prefix_len(tokens);
    let taken = tokens.take(blank_lines_len(tokens) as int);
    let rest = after_blank_lines(tokens);
    assert(tokens =~= taken + rest);
    assert forall|i: int| 0 <= i < taken.len() implies (#[trigger] taken[i]).lexeme.is_blank()
        || taken[i].lexeme.is_offside_marker() by {
        assert(taken[i] == tokens[i]);
    }
    lemma_content_of_filler(taken);
    lemma_content_concat(taken, rest);
    assert(content_of(taken) + content_of(rest) =~= content_of(rest));
}

/// The block markers that the start of a line gives carry nothing.
pub proof fn lemma_content_of_markers(stack: Seq<usize>, front: TokenView)
    ensures
        offside_step(stack, front) matches Ok((next, markers)) ==> content_of(markers)
            == Seq::<TokenView>::empty(),
{
    if let Ok((next, markers)) = offside_step(stack, front) {
        lemma_content_of_filler(markers);
    }
}

/// Normalising keeps what carries the program: the tokens that are read
/// without error hold every token other than spaces, comments, newlines
/// and block markers of `output` and of `queue`, unchanged and in their
/// order, and no other such token.
pub proof fn lemma_offside_run_keeps_content(
    queue: Seq<TokenView>,
    stack: Seq<usize>,
    output: Seq<TokenView>,
)
    ensures
        offside_run(queue, stack, output).0 matches Ok(tokens) ==> content_of(tokens)
            == content_of(output) + content_of(queue),
    decreases queue.len(),
{
    let closing = dedents(stack.len() - 1);
    let newline = TokenView::synthetic(LexemeView::Newline);
    if queue.len() == 0 {
        lemma_content_of_filler(closing);
        lemma_content_concat(output, closing);
        assert(content_of(output) + Seq::<TokenView>::empty() =~= content_of(output));
    } else if queue[0].lexeme is Newline {
        lemma_blank_lines_start_with_newline(queue);
        lemma_content_after_blank_lines(queue);
        let rest = after_blank_lines(queue);
        let with_newline = output.push(newline);
        assert(with_newline.drop_last() =~= output);
        if rest.len() == 0 {
            lemma_content_of_filler(closing);
            lemma_content_concat(with_newline, closing);
            assert(content_of(output) + Seq::<TokenView>::empty() =~= content_of(output));
        } else {
            lemma_content_of_markers(stack, rest[0]);
            if let Ok((next, markers)) = offside_step(stack, rest[0]) {
                lemma_content_concat(with_newline, markers);
                assert(content_of(with_newline) + content_of(markers) =~= content_of(output));
                lemma_offside_run_keeps_content(rest, next, with_newline + markers);
            }
        }
    } else {
        let rest = queue.drop_first();
        assert(queue =~= seq![queue[0]] + rest);
        lemma_content_concat(seq![queue[0]], rest);
        reveal_with_fuel(content_of, 2);
        assert(seq![queue[0]].drop_last() =~= Seq::<TokenView>::empty());
        assert(seq![queue[0]].last() == queue[0]);
        if queue[0].lexeme.is_filler() {
            lemma_offside_run_keeps_content(rest, stack, output);
            assert(content_of(seq![queue[0]]) =~= Seq::<TokenView>::empty());
            assert(Seq::<TokenView>::empty() + content_of(rest) =~= content_of(rest));
        } else {
            let with_token = output.push(queue[0]);
            assert(with_token.drop_last() =~= output);
            lemma_offside_run_keeps_content(rest, stack, with_token);
            if queue[0].lexeme.is_offside_marker() {
                assert(content_of(seq![queue[0]]) =~= Seq::<TokenView>::empty());
                assert(Seq::<TokenView>::empty() + content_of(rest) =~= content_of(rest));
            } else {
                assert(content_of(seq![queue[0]]) =~= seq![queue[0]]);
                assert(content_of(output).push(queue[0]) + content_of(rest) =~= content_of(output)
                    + (seq![queue[0]] + content_of(rest)));
            }
        }
    }
}

/// Normalising keeps every token other than spaces, comments and newlines
/// unchanged and in its order, and adds nothing but newlines and block
/// markers.
pub proof fn lemma_sanitized_keeps_content(raw: Seq<TokenView>)
    ensures
        sanitized(raw).0 matches Ok(tokens) ==> content_of(tokens) == content_of(raw),
{
    lemma_content_after_blank_lines(raw);
    let queue = after_blank_lines(raw);
    if queue.len() > 0 {
        let newline = TokenView::synthetic(LexemeView::Newline);
        let full = queue.push(newline);
        assert(full.drop_last() =~= queue);
        lemma_offside_run_keeps_content(full, seq![0usize], Seq::empty());
        assert(Seq::<TokenView>::empty() + content_of(full) =~= content_of(full));
    }
}

/// Whatever the indentation, the normalised tokens of raw tokens that hold
/// no block markers open as many blocks as they close.
pub proof fn lemma_sanitized_balanced(raw: Seq<TokenView>)
    requires
        has_no_offside_marker(raw),
    ensures
        sanitized(raw).0 matches Ok(tokens) ==> marker_count(tokens, LexemeView::Indent)
            == marker_count(tokens, LexemeView::Dedent),
{
    lemma_blank_lines_len(raw);
    let queue = after_blank_lines(raw);
    if queue.len() > 0 {
        let full = queue.push(TokenView::synthetic(LexemeView::Newline));
        assert(has_no_offside_marker(full)) by {
            assert forall|i: int| 0 <= i < full.len() implies !(#[trigger] full[i]).lexeme.is_offside_marker() by {
                if i < queue.len() {
                    assert(full[i] == raw[i + blank_lines_len(raw)]);
                }
            }
        }
        lemma_offside_run_balanced(full, seq![0usize], Seq::empty());
    }
}

/// The widths of the blocks that are open, the innermost on top.
pub struct Indents(Vec<usize>);

impl View for Indents {
    type V = Seq<usize>;

    closed spec fn view(&self) -> Seq<usize> {
        self.0@
    }
}

impl Indents {
    /// A stack that holds `len` alone.
    pub fn from(len: usize) -> (indents: Indents)
        ensures
            indents@ == seq![len],
    {
        let mut widths: Vec<usize> = Vec::new();
        widths.push(len);
        assert(widths@ =~= seq![len]);
        Indents(widths)
    }

    /// The width on top.
    pub fn last(&self) -> (top: Option<&usize>)
        ensures
            self@.len() == 0 ==> top.is_none(),
            self@.len() > 0 ==> top == Some(&self@.last()),
    {
        if self.0.len() > 0 {
            Some(&self.0[self.0.len() - 1])
        } else {
            None
        }
    }

    pub fn push(&mut self, len: &usize)
        ensures
            final(self)@ == old(self)@.push(*len),
    {
        self.0.push(*len)
    }

    pub fn pop(&mut self) -> (top: Option<usize>)
        ensures
            old(self)@.len() == 0 ==> top.is_none() && final(self)@ == old(self)@,
            old(self)@.len() > 0 ==> top == Some(old(self)@.last()) && final(self)@ == old(
                self,
            )@.drop_last(),
    {
        self.0.pop()
    }

    pub fn len(&self) -> (len: usize)
        ensures
            len == self@.len(),
    {
        self.0.len()
    }

    /// Whether no block is open: the width on top is 0.
    pub fn is_top_level(&self) -> (top_level: bool)
        requires
            self@.len() > 0,
        ensures
            top_level == (self@.last() == 0),
    {
        self.0[self.0.len() - 1] == 0
    }
}

/// Whether `lexeme` can make up a blank line.
fn is_blank(lexeme: &Lexeme) -> (blank: bool)
    ensures
        blank == lexeme@.is_blank(),
{
    match lexeme {
        Lexeme::Spaces(_) => true,
        Lexeme::Newline => true,
        Lexeme::Comment => true,
        _ => false,
    }
}

/// Takes the blank lines off the front of `queue`: the blank tokens up to
/// their last newline. Fails, and takes nothing, where the front holds no
/// newline before its first token with content.
pub fn cosume_empty_lines(queue: &mut VecDeque<Token>) -> (taken: Result<(), ()>)
    ensures
        final(queue)@ == old(queue)@.skip(blank_lines_len(token_views(old(queue)@)) as int),
        token_views(final(queue)@) == after_blank_lines(token_views(old(queue)@)),
        taken is Ok <==> blank_lines_len(token_views(old(queue)@)) > 0,
{
    let ghost views = token_views(queue@);
    let mut index: usize = 0;
    let mut end: usize = 0;
    assert(views.skip(0) =~= views);
    while index < queue.len() && is_blank(&queue[index].lexeme)
        invariant
            queue@ == old(queue)@,
            views == token_views(queue@),
            index <= queue.len(),
            end <= index,
            blank_prefix_len(views) == index + blank_prefix_len(views.skip(index as int)),
            end == last_newline_end(views, index as nat),
        decreases queue.len() - index,
    {
        proof {
            assert(views.skip(index as int)[0] == views[index as int]);
            assert(views.skip(index as int).drop_first() =~= views.skip(index + 1));
        }
        if let Lexeme::Newline = queue[index].lexeme {
            end = index + 1;
        }
        index += 1;
    }
    proof {
        if index < queue.len() {
            assert(views.skip(index as int)[0] == views[index as int]);
        }
        assert(blank_prefix_len(views) == index);
    }
    let mut count: usize = 0;
    while count < end
        invariant
            count <= end <= old(queue)@.len(),
            queue@ =~= old(queue)@.skip(count as int),
        decreases end - count,
    {
        let _ = queue.pop_front();
        count += 1;
    }
    assert(token_views(queue@) =~= token_views(old(queue)@).skip(end as int));
    if end > 0 {
        Ok(())
    } else {
        Err(())
    }
}

/// The block markers that the line opened by `front` gives, with the
/// indentation stack brought up to date. `front` counts as leading spaces
/// if it is a run of spaces, and as content at width 0 otherwise. Where
/// the line is refused the stack is left empty.
pub fn generate_offside_tokens(front: &Token, indents: &mut Indents) -> (markers: Result<
    Vec<Token>,
    SyntaxError,
>)
    requires
        well_formed_indents(old(indents)@),
    ensures
        match offside_step(old(indents)@, front@) {
            Ok((stack, tokens)) => markers is Ok && token_views(markers->Ok_0@) == tokens
                && final(indents)@ == stack,
            Err(error) => markers is Err && markers->Err_0@ == error && final(indents)@.len() == 0,
        },
        markers is Ok ==> well_formed_indents(final(indents)@),
        markers is Err <==> line_width(front@.lexeme) < old(indents)@.last() && !old(
            indents,
        )@.contains(line_width(front@.lexeme)),
        markers matches Err(error) ==> error@ == SyntaxErrorView::inconsistent_dedent(front@),
{
    let mut offside_tokens: Vec<Token> = Vec::new();
    let width: usize = match front.lexeme {
        Lexeme::Spaces(spaces) => spaces,
        _ => 0,
    };
    proof {
        lemma_unwind(indents@, width);
        lemma_offside_step(indents@, front@);
        lemma_inconsistent_dedent(indents@, front@);
    }
    if indents.is_top_level() || *indents.last().unwrap() < width {
        if *indents.last().unwrap() < width {
            indents.push(&width);
            offside_tokens.push(Token::indent());
            assert(token_views(offside_tokens@) =~= seq![indent_token()]);
            return Ok(offside_tokens);
        }
    }
    loop
        invariant
            old(indents)@.len() > 0,
            width == line_width(front@.lexeme),
            offside_step(old(indents)@, front@) is Err <==> width < old(indents)@.last() && !old(
                indents,
            )@.contains(width),
            indents@.len() <= old(indents)@.len(),
            unwind(indents@, width) == unwind(old(indents)@, width),
            token_views(offside_tokens@) =~= dedents(old(indents)@.len() - indents@.len()),
            offside_step(old(indents)@, front@) == if unwind(old(indents)@, width).len() == 0 {
                Err::<(Seq<usize>, Seq<TokenView>), SyntaxErrorView>(
                    SyntaxErrorView::inconsistent_dedent(front@),
                )
            } else {
                Ok::<(Seq<usize>, Seq<TokenView>), SyntaxErrorView>(
                    (
                        unwind(old(indents)@, width),
                        dedents(old(indents)@.len() - unwind(old(indents)@, width).len()),
                    ),
                )
            },
            unwind(old(indents)@, width).len() > 0 ==> well_formed_indents(
                unwind(old(indents)@, width),
            ),
        decreases indents@.len(),
    {
        match indents.last() {
            None => {
                return Err(SyntaxError::inconsistent_dedent(front.clone()));
            },
            Some(top) => {
                if *top == width {
                    return Ok(offside_tokens);
                }
            },
        }
        let ghost given = token_views(offside_tokens@);
        let _ = indents.pop();
        offside_tokens.push(Token::dedent());
        assert(token_views(offside_tokens@) =~= given.push(dedent_token()));
    }
}

/// Normalises the raw tokens in `queue`: drops spaces, comments and blank
/// lines, and marks the blocks that the indentation stands for with
/// `Indent` and `Dedent`. The tokens are taken out of `queue` as they are
/// read; all of them, unless a line is refused.
pub fn sanitize(queue: &mut VecDeque<Token>) -> (tokens: Result<VecDeque<Token>, SyntaxError>)
    ensures
        queue_result_view(tokens) == sanitized(token_views(old(queue)@)).0,
        token_views(final(queue)@) == sanitized(token_views(old(queue)@)).1,
        tokens matches Ok(normalised) ==> (has_no_offside_marker(token_views(old(queue)@))
            ==> marker_count(token_views(normalised@), LexemeView::Indent) == marker_count(
            token_views(normalised@),
            LexemeView::Dedent,
        ) && well_nested(token_views(normalised@)) && has_no_filler(token_views(normalised@))),
        tokens matches Ok(normalised) ==> content_of(token_views(normalised@)) == content_of(
            token_views(old(queue)@),
        ),
{
    proof {
        lemma_sanitized_keeps_content(token_views(queue@));
        if has_no_offside_marker(token_views(queue@)) {
            lemma_sanitized_balanced(token_views(queue@));
            lemma_sanitized_nested(token_views(queue@));
        }
    }
    let mut output: VecDeque<Token> = VecDeque::new();
    let mut indents = Indents::from(0);
    let _ = cosume_empty_lines(queue);
    if queue.len() == 0 {
        assert(token_views(output@) =~= Seq::empty());
        return Ok(output);
    }
    let ghost start = token_views(queue@).push(TokenView::synthetic(LexemeView::Newline));
    queue.push_back(Token::newline());
    assert(token_views(queue@) =~= start);
    assert(token_views(output@) =~= Seq::empty());
    while queue.len() > 0
        invariant
            well_formed_indents(indents@),
            sanitized(token_views(old(queue)@)) == offside_run(start, seq![0usize], Seq::empty()),
            offside_run(token_views(queue@), indents@, token_views(output@)) == offside_run(
                start,
                seq![0usize],
                Seq::empty(),
            ),
        ensures
            queue@.len() == 0,
        decreases queue.len(),
    {
        let ghost before = token_views(queue@);
        let ghost given = token_views(output@);
        if let Lexeme::Newline = queue[0].lexeme {
            proof {
                lemma_blank_lines_start_with_newline(before);
            }
            let _ = cosume_empty_lines(queue);
            output.push_back(Token::newline());
            assert(token_views(output@) =~= given.push(TokenView::synthetic(LexemeView::Newline)));
            if queue.len() == 0 {
                assert(token_views(queue@) =~= Seq::empty());
                break;
            }
            let ghost with_newline = token_views(output@);
            match generate_offside_tokens(&queue[0], &mut indents) {
                Err(error) => {
                    return Err(error);
                },
                Ok(markers) => {
                    let mut index: usize = 0;
                    while index < markers.len()
                        invariant
                            index <= markers.len(),
                            token_views(output@) =~= with_newline + token_views(markers@).take(
                                index as int,
                            ),
                        decreases markers.len() - index,
                    {
                        let ghost given = token_views(output@);
                        output.push_back(markers[index].clone());
                        assert(token_views(output@) =~= given.push(markers[index as int]@));
                        index += 1;
                    }
                    assert(token_views(markers@).take(index as int) =~= token_views(markers@));
                },
            }
        } else {
            let token = queue.pop_front().unwrap();
            assert(token_views(queue@) =~= before.drop_first());
            match token.lexeme {
                Lexeme::Comment => {},
                Lexeme::Spaces(_) => {},
                _ => {
                    output.push_back(token);
                    assert(token_views(output@) =~= given.push(before[0]));
                },
            }
        }
    }
    let ghost body = token_views(output@);
    let ghost open = indents@.len();
    assert(token_views(queue@) =~= Seq::empty());
    assert(sanitized(token_views(old(queue)@)) == (
        Ok::<Seq<TokenView>, SyntaxErrorView>(body + dedents(open - 1)),
        Seq::<TokenView>::empty(),
    ));
    while !indents.is_top_level()
        invariant
            well_formed_indents(indents@),
            indents@.len() <= open,
            token_views(output@) =~= body + dedents(open - indents@.len()),
        decreases indents@.len(),
    {
        let ghost given = token_views(output@);
        output.push_back(Token::dedent());
        assert(token_views(output@) =~= given.push(dedent_token()));
        let _ = indents.pop();
    }
    assert(indents@.len() == 1) by {
        if indents@.len() > 1 {
            assert(indents@[0] < indents@[indents@.len() - 1]);
        }
    }
    Ok(output)
}

} // verus!
