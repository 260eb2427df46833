//! What command lines mean and which running commands are the configured ones.
use vstd::prelude::*;

use crate::command::{
    command_tokens, command_words, displayed, is_dash_variant, kept_args, law_display_then_split,
    law_no_dashes_unchanged, plain_dashes, survives_display, tokens_match,
};
use crate::models::ProcessDefinitionView;
use crate::paths::file_name_of;
use crate::platform::Platform;
use crate::text::{is_space, trimmed};

verus! {

/// A running command that is the configured one has, behind its program, the configured words:
/// each of the same length, with the same characters, typographic dashes aside.
pub proof fn law_matching_commands_have_the_configured_words(
    platform: Platform,
    configured: Seq<Seq<char>>,
    candidate: Seq<char>,
    i: int,
)
    requires
        tokens_match(platform, configured, candidate),
        1 <= i < configured.len(),
    ensures
        command_words(candidate) is Ok,
        configured.len() <= command_words(candidate)->Ok_0.len(),
        plain_dashes(command_words(candidate)->Ok_0[i]).len() == plain_dashes(configured[i]).len(),
        forall|k: int|
            0 <= k < plain_dashes(configured[i]).len() ==> plain_dashes(
                command_words(candidate)->Ok_0[i],
            )[k] == #[trigger] plain_dashes(configured[i])[k],
{
    assert(plain_dashes(configured[i]) == plain_dashes(command_words(candidate)->Ok_0[i]));
}

/// The program of a running command that is the configured one is written like it, or is a path
/// to a file of that name.
pub proof fn law_matching_commands_have_the_configured_program(
    platform: Platform,
    configured: Seq<Seq<char>>,
    candidate: Seq<char>,
)
    requires
        tokens_match(platform, configured, candidate),
    ensures
        configured.len() > 0,
        command_words(candidate) is Ok,
        configured.len() <= command_words(candidate)->Ok_0.len(),
        ({
            let program = plain_dashes(command_words(candidate)->Ok_0[0]);
            program == plain_dashes(configured[0]) || file_name_of(platform, program) == Some(
                plain_dashes(configured[0]),
            )
        }),
{
}

/// Two running commands that are both the configured one agree on all the configured words but
/// the program.
pub proof fn law_matching_commands_agree(
    platform: Platform,
    configured: Seq<Seq<char>>,
    a: Seq<char>,
    b: Seq<char>,
    i: int,
)
    requires
        tokens_match(platform, configured, a),
        tokens_match(platform, configured, b),
        1 <= i < configured.len(),
    ensures
        plain_dashes(command_words(a)->Ok_0[i]) == plain_dashes(command_words(b)->Ok_0[i]),
{
    assert(plain_dashes(configured[i]) == plain_dashes(command_words(a)->Ok_0[i]));
    assert(plain_dashes(configured[i]) == plain_dashes(command_words(b)->Ok_0[i]));
}

/// A command with a word that is longer or shorter than the configured one is another command.
pub proof fn law_lengthened_words_do_not_match(
    platform: Platform,
    configured: Seq<Seq<char>>,
    candidate: Seq<char>,
    i: int,
)
    requires
        1 <= i < configured.len(),
        command_words(candidate) matches Ok(words) && i < words.len() && plain_dashes(
            words[i],
        ).len() != plain_dashes(configured[i]).len(),
    ensures
        !tokens_match(platform, configured, candidate),
{
    if tokens_match(platform, configured, candidate) {
        assert(plain_dashes(configured[i]) == plain_dashes(command_words(candidate)->Ok_0[i]));
    }
}

/// A running command with the configured program, by its name or by a path to it, and then the
/// configured words, whatever follows them, is the configured one.
pub proof fn law_same_words_match(
    platform: Platform,
    configured: Seq<Seq<char>>,
    candidate: Seq<char>,
)
    requires
        configured.len() > 0,
        command_words(candidate) matches Ok(words) && configured.len() <= words.len() && (
        plain_dashes(words[0]) == plain_dashes(configured[0]) || file_name_of(
            platform,
            plain_dashes(words[0]),
        ) == Some(plain_dashes(configured[0]))),
        forall|i: int|
            1 <= i < configured.len() ==> plain_dashes(command_words(candidate)->Ok_0[i])
                == plain_dashes(#[trigger] configured[i]),
    ensures
        tokens_match(platform, configured, candidate),
{
}

/// A command that is made of the configured words, one behind the program changed, is another
/// command; so is one with fewer words.
pub proof fn law_changed_words_do_not_match(
    platform: Platform,
    configured: Seq<Seq<char>>,
    other: Seq<Seq<char>>,
    i: int,
)
    requires
        1 <= i < configured.len(),
        i < other.len() ==> other[i] != configured[i],
        other.len() > 0,
        forall|k: int|
            0 <= k < configured.len() ==> survives_display(#[trigger] configured[k]),
        forall|k: int| 0 <= k < other.len() ==> survives_display(#[trigger] other[k]),
    ensures
        !tokens_match(platform, configured, displayed(other)),
{
    law_display_then_split(other);
    if i < other.len() {
        assert(survives_display(other[i]) && survives_display(configured[i]));
        law_no_dashes_unchanged(other[i]);
        law_no_dashes_unchanged(configured[i]);
        if tokens_match(platform, configured, displayed(other)) {
            assert(plain_dashes(configured[i]) == plain_dashes(other[i]));
        }
    }
}

/// Words that are displayed and run are the configured ones, with more words behind them or
/// without.
pub proof fn law_displayed_commands_match(
    platform: Platform,
    configured: Seq<Seq<char>>,
    more: Seq<Seq<char>>,
)
    requires
        configured.len() > 0,
        forall|i: int|
            0 <= i < configured.len() ==> survives_display(
                #[trigger] configured[i],
            ),
        forall|i: int|
            0 <= i < more.len() ==> survives_display(#[trigger] more[i]),
    ensures
        tokens_match(platform, configured, displayed(configured + more)),
{
    let all = configured + more;
    assert forall|i: int| 0 <= i < all.len() implies survives_display(
        #[trigger] all[i],
    ) by {
        if i < configured.len() {
            assert(all[i] == configured[i]);
        } else {
            assert(all[i] == more[i - configured.len()]);
        }
    }
    law_display_then_split(all);
    assert forall|i: int| 1 <= i < configured.len() implies plain_dashes(
        #[trigger] configured[i],
    ) == plain_dashes(all[i]) by {
        assert(all[i] == configured[i]);
    }
    assert(all[0] == configured[0]);
}

/// An argument that is passed on as it is: not empty, without whitespace at its ends, without
/// typographic dashes.
pub open spec fn is_clean(arg: Seq<char>) -> bool {
    &&& arg.len() > 0
    &&& !is_space(arg[0])
    &&& !is_space(arg.last())
    &&& forall|i: int| 0 <= i < arg.len() ==> !is_dash_variant(#[trigger] arg[i])
}

proof fn lemma_clean(arg: Seq<char>)
    requires
        is_clean(arg),
    ensures
        trimmed(plain_dashes(arg)) == arg,
{
    law_no_dashes_unchanged(arg);
}

/// A process is started with the words of its command and then its arguments, those that need
/// no cleaning as they are.
pub proof fn law_tokens_are_command_then_arguments(process: ProcessDefinitionView)
    requires
        command_words(process.command) is Ok,
        forall|i: int| 0 <= i < process.args.len() ==> is_clean(#[trigger] process.args[i]),
        command_words(process.command)->Ok_0.len() + process.args.len() > 0,
    ensures
        command_tokens(process) is Ok,
        command_tokens(process)->Ok_0 == command_words(process.command)->Ok_0 + process.args,
{
    lemma_kept_clean(process.args);
}

proof fn lemma_kept_clean(args: Seq<Seq<char>>)
    requires
        forall|i: int| 0 <= i < args.len() ==> is_clean(#[trigger] args[i]),
    ensures
        kept_args(args) == args,
    decreases args.len(),
{
    if args.len() > 0 {
        let front = args.drop_last();
        assert forall|i: int| 0 <= i < front.len() implies is_clean(#[trigger] front[i]) by {
            assert(front[i] == args[i]);
        }
        lemma_kept_clean(front);
        assert(is_clean(args[args.len() - 1]));
        lemma_clean(args.last());
        assert(front.push(args.last()) =~= args);
    }
}

proof fn lemma_blank(s: Seq<char>)
    requires
        forall|i: int| 0 <= i < s.len() ==> is_space(#[trigger] s[i]),
    ensures
        trimmed(s).len() == 0,
    decreases s.len(),
{
    if s.len() > 0 {
        assert(is_space(s[0]));
        let rest = s.skip(1);
        assert forall|i: int| 0 <= i < rest.len() implies is_space(#[trigger] rest[i]) by {
            assert(rest[i] == s[i + 1]);
        }
        lemma_blank(rest);
        assert(trimmed(s) == trimmed(rest));
    }
}

/// A blank argument adds nothing.
pub proof fn law_blank_arguments_are_left_out(
    process: ProcessDefinitionView,
    blank: Seq<char>,
)
    requires
        forall|i: int| 0 <= i < blank.len() ==> is_space(#[trigger] blank[i]),
    ensures
        command_tokens(ProcessDefinitionView { args: process.args.push(blank), ..process })
            == command_tokens(process),
{
    assert(process.args.push(blank).drop_last() =~= process.args);
    assert forall|i: int| 0 <= i < blank.len() implies !is_dash_variant(#[trigger] blank[i]) by {
        assert(is_space(blank[i]));
    }
    law_no_dashes_unchanged(blank);
    lemma_blank(blank);
}

/// A process with neither a command nor arguments is not started; one whose command breaks off in
/// a quote is not either, and that is what the error says.
pub proof fn law_broken_commands_are_refused(process: ProcessDefinitionView)
    ensures
        command_tokens(process) matches Ok(tokens) ==> tokens.len() > 0,
        command_words(process.command) matches Err(message) ==> (command_tokens(
            process,
        ) matches Err(error) && error.code == "INVALID_PROCESS_DEFINITION"@ && error.message
            == "Command could not be parsed"@ && error.details == Some(message)),
        command_words(process.command) matches Ok(words) ==> (words.len() == 0
            && process.args.len() == 0 ==> (command_tokens(process) matches Err(error)
            && error.code == "INVALID_PROCESS_DEFINITION"@ && error.message
            == "Command is required"@ && error.details is None)),
{
    if process.args.len() == 0 {
        assert(kept_args(process.args).len() == 0);
    }
}

} // verus!
