//! Properties of the command language that hold across its functions.

use vstd::prelude::*;

use super::args::{
    is_flag_text, parse_from_spec, read_tokens, resolve_groups, group_scan, token_step,
    parse_arg_spec, parse_flag_spec, ArgDeclListView, FlagGroupView, FlagValueView,
};
use super::command::{command_names, names_with_prefix};
use super::complete::{arg_prefix_candidates, flag_prefix_candidates};
use super::error::ParseErrorView;
use super::lexer::{is_blank, lex_spec, skip_blanks, LexemeView};
use super::parser::{
    clone_decls, create_repo_decls, create_user_decls, echo_args, finish_spec, login_decls,
    parse_command_spec, parse_line_spec, remote_path_decls, upload_ssh_key_decls, url_decls,
};

verus! {

proof fn lemma_skip_all_blanks(s: Seq<char>, i: int)
    requires
        0 <= i <= s.len(),
        forall|k: int| 0 <= k < s.len() ==> is_blank(#[trigger] s[k]),
    ensures
        skip_blanks(s, i) == s.len(),
    decreases s.len() - i,
{
    if i < s.len() {
        lemma_skip_all_blanks(s, i + 1);
    }
}

/// A line of blanks only (or nothing) holds no command: parsing it fails
/// with `Empty`.
pub proof fn lemma_blank_line_is_empty(s: Seq<char>)
    requires
        forall|k: int| 0 <= k < s.len() ==> is_blank(#[trigger] s[k]),
    ensures
        parse_line_spec(s) == Err::<super::command::ParsedView, ParseErrorView>(ParseErrorView::Empty),
{
    lemma_skip_all_blanks(s, 0);
    assert(lex_spec(s) =~= Seq::<LexemeView>::empty());
}

/// An `UnexpectedFlag` error carries the text of the flag it rejected,
/// which starts with `--`.
pub open spec fn flag_error_ok<T>(r: Result<T, ParseErrorView>) -> bool {
    r matches Err(ParseErrorView::UnexpectedFlag(s, _)) ==> is_flag_text(s.value)
}

proof fn lemma_token_step_flag_errors(d: ArgDeclListView, t: LexemeView, st: super::args::ArgStoreView)
    ensures
        flag_error_ok(token_step(d, t, st)),
{
}

proof fn lemma_read_tokens_flag_errors(d: ArgDeclListView, toks: Seq<LexemeView>)
    ensures
        flag_error_ok(read_tokens(d, toks)),
    decreases toks.len(),
{
    if toks.len() > 0 {
        lemma_read_tokens_flag_errors(d, toks.drop_last());
        if let Ok(st) = read_tokens(d, toks.drop_last()) {
            lemma_token_step_flag_errors(d, toks.last(), st);
        }
    }
}

proof fn lemma_group_scan_flag_errors(g: FlagGroupView, entries: Seq<(Seq<char>, FlagValueView)>)
    ensures
        flag_error_ok(group_scan(g, entries)),
    decreases entries.len(),
{
    if entries.len() > 0 {
        lemma_group_scan_flag_errors(g, entries.drop_last());
    }
}

proof fn lemma_resolve_groups_flag_errors(
    groups: Seq<FlagGroupView>,
    flags: Seq<(Seq<char>, FlagValueView)>,
)
    ensures
        flag_error_ok(resolve_groups(groups, flags)),
    decreases groups.len(),
{
    if groups.len() > 0 {
        lemma_resolve_groups_flag_errors(groups.drop_last(), flags);
        lemma_group_scan_flag_errors(groups.last(), flags);
    }
}

proof fn lemma_parse_from_flag_errors(d: ArgDeclListView, toks: Seq<LexemeView>)
    ensures
        flag_error_ok(parse_from_spec(d, toks)),
{
    lemma_read_tokens_flag_errors(d, toks);
    if let Ok(st) = read_tokens(d, toks) {
        lemma_resolve_groups_flag_errors(d.flag_groups, st.flags);
    }
}

proof fn lemma_echo_args_flag_errors(toks: Seq<LexemeView>)
    ensures
        flag_error_ok(echo_args(toks)),
    decreases toks.len(),
{
    if toks.len() > 0 {
        lemma_echo_args_flag_errors(toks.drop_last());
    }
}

/// Every `UnexpectedFlag` error of the parser names a token that starts
/// with `--`, the flag the user typed.
pub proof fn lemma_unexpected_flags_are_flags(s: Seq<char>)
    ensures
        flag_error_ok(parse_line_spec(s)),
{
    let toks = lex_spec(s);
    if toks.len() > 0 {
        let rest = toks.skip(1);
        lemma_parse_from_flag_errors(login_decls(), rest);
        lemma_parse_from_flag_errors(create_user_decls(), rest);
        lemma_parse_from_flag_errors(create_repo_decls(), rest);
        lemma_parse_from_flag_errors(clone_decls(), rest);
        lemma_parse_from_flag_errors(remote_path_decls(), rest);
        lemma_parse_from_flag_errors(url_decls(), rest);
        lemma_parse_from_flag_errors(upload_ssh_key_decls(), rest);
        lemma_echo_args_flag_errors(rest);
    }
}

/// With nothing typed, every command name is offered.
pub proof fn lemma_empty_prefix_offers_all_commands()
    ensures
        names_with_prefix(Seq::empty()) == command_names(),
{
    lemma_filter_all(command_names());
}

proof fn lemma_filter_all(s: Seq<Seq<char>>)
    ensures
        s.filter(|n: Seq<char>| Seq::<char>::empty().is_prefix_of(n)) == s,
    decreases s.len(),
{
    reveal_with_fuel(Seq::filter, 1);
    if s.len() > 0 {
        lemma_filter_all(s.drop_last());
        assert(Seq::<char>::empty().is_prefix_of(s.last()));
        assert(s.drop_last().push(s.last()) =~= s);
    }
}

/// Every argument name offered for completion starts with what was typed.
pub proof fn lemma_offered_args_extend_typed(names: Seq<Seq<char>>, typed: Seq<char>, i: int)
    requires
        0 <= i < arg_prefix_candidates(names, typed).len(),
    ensures
        typed.is_prefix_of(arg_prefix_candidates(names, typed)[i].0),
        arg_prefix_candidates(names, typed)[i].1 == arg_prefix_candidates(names, typed)[i].0 + ":"@,
    decreases names.len(),
{
    let a = arg_prefix_candidates(names.drop_last(), typed);
    if i < a.len() {
        lemma_offered_args_extend_typed(names.drop_last(), typed, i);
        assert(arg_prefix_candidates(names, typed)[i] == a[i]);
    }
}

/// Every flag offered for completion starts with the flag name typed.
pub proof fn lemma_offered_flags_extend_typed(names: Seq<Seq<char>>, typed: Seq<char>, i: int)
    requires
        0 <= i < flag_prefix_candidates(names, typed).len(),
    ensures
        exists|n: Seq<char>| typed.is_prefix_of(n) && flag_prefix_candidates(names, typed)[i].0 == "--"@ + n,
    decreases names.len(),
{
    let a = flag_prefix_candidates(names.drop_last(), typed);
    if i < a.len() {
        lemma_offered_flags_extend_typed(names.drop_last(), typed, i);
        assert(flag_prefix_candidates(names, typed)[i] == a[i]);
    } else {
        let n = names.last();
        assert(flag_prefix_candidates(names, typed)[i].0 == "--"@ + n);
    }
}

} // verus!
