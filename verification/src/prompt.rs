use vstd::prelude::*;
use vstd::string::*;

use crate::runner::COMPLETION_SIGIL;
use crate::text::{
    contains_text, decimal, lemma_contains_prefix, lemma_contains_self, lemma_contains_suffix,
    push_decimal,
};

verus! {

/// The instructions that follow the issue text, up to the completion sigil.
pub const PROMPT_INSTRUCTIONS: &'static str = "\n\n## Instructions\n\
    Read the codebase, then implement the issue above.\n\
    Commit your changes in small, logical increments.\n\
    After each change, run any available type-checking and linting commands you find \
    in the project (e.g. from Makefile, package.json, Cargo.toml, or similar).\n\
    Do not push the branch or submit changes upstream \u{2014} lifecycle transitions are handled externally.\n\
    When the implementation is complete, emit the following sigil on its own line:\n";

/// The comments of an issue, each introduced by a separator line.
pub open spec fn comments_block(comments: Seq<Seq<char>>) -> Seq<char>
    decreases comments.len(),
{
    if comments.len() == 0 {
        Seq::empty()
    } else {
        comments_block(comments.drop_last()) + "\n---\n"@ + comments.last()
    }
}

/// The part of the prompt that describes the issue: heading, body and,
/// where there are any, the comments.
pub open spec fn issue_text(
    number: nat,
    title: Seq<char>,
    body: Seq<char>,
    comments: Seq<Seq<char>>,
) -> Seq<char> {
    "# Issue #"@ + decimal(number) + ": "@ + title + "\n\n"@ + body + if comments.len() == 0 {
        Seq::empty()
    } else {
        "\n\n## Comments\n"@ + comments_block(comments)
    }
}

/// The whole prompt handed to the agent for an issue.
pub open spec fn prompt_text(
    number: nat,
    title: Seq<char>,
    body: Seq<char>,
    comments: Seq<Seq<char>>,
) -> Seq<char> {
    issue_text(number, title, body, comments) + PROMPT_INSTRUCTIONS@ + COMPLETION_SIGIL@
}

/// The views of a list of comments.
pub open spec fn comment_views(comments: Seq<&str>) -> Seq<Seq<char>> {
    comments.map_values(|c: &str| c@)
}

/// Builds the prompt for issue `number` from its title, body and comments.
pub fn build_prompt(number: u64, title: &str, body: &str, comments: &[&str]) -> (prompt: String)
    ensures
        prompt@ == prompt_text(number as nat, title@, body@, comment_views(comments@)),
{
    let ghost views = comment_views(comments@);
    let mut text = String::new();
    text.append("# Issue #");
    push_decimal(&mut text, number);
    text.append(": ");
    text.append(title);
    text.append("\n\n");
    text.append(body);
    let ghost head = text@;
    if comments.len() > 0 {
        text.append("\n\n## Comments\n");
        let ghost start = text@;
        assert(views.take(0) =~= Seq::<Seq<char>>::empty());
        for i in 0..comments.len()
            invariant
                views == comment_views(comments@),
                text@ == start + comments_block(views.take(i as int)),
        {
            text.append("\n---\n");
            text.append(comments[i]);
            assert(views.take(i + 1).drop_last() =~= views.take(i as int));
        }
        assert(views.take(comments.len() as int) =~= views);
    } else {
        assert(head + Seq::<char>::empty() =~= head);
    }
    text.append(PROMPT_INSTRUCTIONS);
    text.append(COMPLETION_SIGIL);
    text
}

/// Every comment of an issue stands in its comment block.
pub proof fn lemma_comments_block_contains(comments: Seq<Seq<char>>, k: int)
    requires
        0 <= k < comments.len(),
    ensures
        contains_text(comments_block(comments), comments[k]),
    decreases comments.len(),
{
    let prev = comments_block(comments.drop_last());
    if k == comments.len() - 1 {
        lemma_contains_self(comments[k]);
        lemma_contains_suffix(prev + "\n---\n"@, comments.last(), comments[k]);
    } else {
        lemma_comments_block_contains(comments.drop_last(), k);
        lemma_contains_prefix(prev, "\n---\n"@ + comments.last(), comments[k]);
        assert(prev + "\n---\n"@ + comments.last() =~= prev + ("\n---\n"@ + comments.last()));
    }
}

/// The prompt holds the issue's title, its body, every one of its comments,
/// and the completion sigil that the agent is told to print.
pub proof fn lemma_prompt_mentions_issue(
    number: nat,
    title: Seq<char>,
    body: Seq<char>,
    comments: Seq<Seq<char>>,
)
    ensures
        contains_text(prompt_text(number, title, body, comments), title),
        contains_text(prompt_text(number, title, body, comments), body),
        contains_text(prompt_text(number, title, body, comments), COMPLETION_SIGIL@),
        forall|k: int|
            0 <= k < comments.len() ==> contains_text(
                prompt_text(number, title, body, comments),
                #[trigger] comments[k],
            ),
{
    let head = "# Issue #"@ + decimal(number) + ": "@;
    let tail_comments = if comments.len() == 0 {
        Seq::empty()
    } else {
        "\n\n## Comments\n"@ + comments_block(comments)
    };
    let rest = PROMPT_INSTRUCTIONS@ + COMPLETION_SIGIL@;
    let p = prompt_text(number, title, body, comments);
    assert(p =~= head + title + ("\n\n"@ + body + tail_comments + rest));
    lemma_contains_self(title);
    lemma_contains_suffix(head, title, title);
    lemma_contains_prefix(head + title, "\n\n"@ + body + tail_comments + rest, title);

    assert(p =~= (head + title + "\n\n"@) + body + (tail_comments + rest));
    lemma_contains_self(body);
    lemma_contains_suffix(head + title + "\n\n"@, body, body);
    lemma_contains_prefix(head + title + "\n\n"@ + body, tail_comments + rest, body);

    let before_sigil = issue_text(number, title, body, comments) + PROMPT_INSTRUCTIONS@;
    assert(p =~= before_sigil + COMPLETION_SIGIL@);
    lemma_contains_self(COMPLETION_SIGIL@);
    lemma_contains_suffix(before_sigil, COMPLETION_SIGIL@, COMPLETION_SIGIL@);

    assert forall|k: int| 0 <= k < comments.len() implies contains_text(p, #[trigger] comments[k]) by {
        let pre = head + title + "\n\n"@ + body + "\n\n## Comments\n"@;
        assert(p =~= pre + comments_block(comments) + rest);
        lemma_comments_block_contains(comments, k);
        lemma_contains_suffix(pre, comments_block(comments), comments[k]);
        lemma_contains_prefix(pre + comments_block(comments), rest, comments[k]);
    }
}

} // verus!
