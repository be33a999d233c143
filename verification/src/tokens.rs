//! The renaming pass: every identifier of a unit that the configuration
//! has a rule for is renamed, however deep it stands.
use vstd::prelude::*;
use crate::error::ConvertError;
use crate::ident::{fits, NameChoice};
use crate::mode::ConvertMode;
use crate::model::{ParamsModel, renaming};
use crate::params::{MacroParameters, Renamed};
use crate::table::lookup;

verus! {

/// The brackets of a group of tokens.
#[derive(Debug, Clone, Copy, PartialEq, Eq, Structural)]
pub enum Delimiter {
    Parenthesis,
    Brace,
    Bracket,
    /// A group without brackets of its own.
    Invisible,
}

/// One token of a unit, with the tokens inside it where it is a group.
#[derive(Debug, PartialEq, Eq)]
pub enum Token {
    /// An identifier or a keyword, by its text.
    Ident(String),
    /// A punctuation mark or a literal, by its text.
    Other(String),
    /// A bracketed group.
    Group(Delimiter, Vec<Token>),
}

/// Mathematical value of a `Token`.
pub enum TokenModel {
    Ident(Seq<char>),
    Other(Seq<char>),
    Group(Delimiter, Seq<TokenModel>),
}

/// The value of a token.
pub open spec fn token_model(token: Token) -> TokenModel
    decreases token,
{
    match token {
        Token::Ident(text) => TokenModel::Ident(text@),
        Token::Other(text) => TokenModel::Other(text@),
        Token::Group(delimiter, inner) => TokenModel::Group(
            delimiter,
            Seq::new(
                inner@.len(),
                |i: int|
                    if 0 <= i < inner@.len() {
                        token_model(inner@[i])
                    } else {
                        arbitrary()
                    },
            ),
        ),
    }
}

impl View for Token {
    type V = TokenModel;

    open spec fn view(&self) -> TokenModel {
        token_model(*self)
    }
}

/// The values of a list of tokens, in order.
pub open spec fn tokens_model(tokens: Seq<Token>) -> Seq<TokenModel> {
    Seq::new(tokens.len(), |i: int| tokens[i]@)
}

/// A group's value is its brackets with the values of its tokens.
pub proof fn lemma_group_model(delimiter: Delimiter, inner: Vec<Token>)
    ensures
        token_model(Token::Group(delimiter, inner)) == TokenModel::Group(
            delimiter,
            tokens_model(inner@),
        ),
{
    assert(token_model(Token::Group(delimiter, inner)) matches TokenModel::Group(_, items)
        && items =~= tokens_model(inner@));
}

/// Whether `after` is what the renaming pass makes of `token`, whatever the
/// parser makes of explicit names: an identifier is renamed as the
/// configuration says, a group keeps its brackets and has the pass applied
/// to each of its tokens, and any other token stays.
pub open spec fn token_renamed(
    params: ParamsModel,
    token: TokenModel,
    mode: ConvertMode,
    after: TokenModel,
) -> bool
    decreases token,
{
    match token {
        TokenModel::Ident(text) => match renaming(params, text, mode) {
            None => after == token,
            Some(choice) => after matches TokenModel::Ident(name) && fits(
                choice,
                text,
                Some(name),
            ),
        },
        TokenModel::Other(_) => after == token,
        TokenModel::Group(delimiter, inner) => {
            &&& after is Group
            &&& after->Group_0 == delimiter
            &&& after->Group_1.len() == inner.len()
            &&& forall|i: int|
                0 <= i < inner.len() ==> token_renamed(
                    params,
                    #[trigger] inner[i],
                    mode,
                    after->Group_1[i],
                )
        },
    }
}

/// Whether `after` is what the pass makes of `tokens`, token by token.
pub open spec fn tokens_renamed(
    params: ParamsModel,
    tokens: Seq<TokenModel>,
    mode: ConvertMode,
    after: Seq<TokenModel>,
) -> bool {
    &&& after.len() == tokens.len()
    &&& forall|i: int|
        0 <= i < tokens.len() ==> token_renamed(params, #[trigger] tokens[i], mode, after[i])
}

/// Whether no identifier in or under `token` has a rule that gives its
/// name outright.
pub open spec fn no_name_outright(params: ParamsModel, token: TokenModel, mode: ConvertMode) -> bool
    decreases token,
{
    match token {
        TokenModel::Ident(text) => match renaming(params, text, mode) {
            Some(NameChoice::Explicit(_)) => false,
            _ => true,
        },
        TokenModel::Other(_) => true,
        TokenModel::Group(_, inner) => forall|i: int|
            0 <= i < inner.len() ==> no_name_outright(params, #[trigger] inner[i], mode),
    }
}

/// Whether no identifier in or under `tokens` has such a rule.
pub open spec fn no_names_outright(
    params: ParamsModel,
    tokens: Seq<TokenModel>,
    mode: ConvertMode,
) -> bool {
    forall|i: int| 0 <= i < tokens.len() ==> no_name_outright(params, #[trigger] tokens[i], mode)
}

/// A group has no identifier with such a rule where its tokens have none.
pub proof fn lemma_group_names(
    params: ParamsModel,
    delimiter: Delimiter,
    inner: Seq<TokenModel>,
    mode: ConvertMode,
)
    ensures
        no_name_outright(params, TokenModel::Group(delimiter, inner), mode) == no_names_outright(
            params,
            inner,
            mode,
        ),
{
    let group = TokenModel::Group(delimiter, inner);
    assert(group->Group_1 == inner);
    assert(no_name_outright(params, group, mode) == (forall|i: int|
        0 <= i < group->Group_1.len() ==> no_name_outright(
            params,
            #[trigger] group->Group_1[i],
            mode,
        )));
}

/// What the pass leaves behind: the renamed tokens, or the refusal of a
/// name that a rule gives outright and the parser does not read as an
/// identifier. The pass is not refused where no rule of an identifier in
/// the tokens gives a name outright.
pub open spec fn renaming_pass(
    params: ParamsModel,
    tokens: Seq<TokenModel>,
    mode: ConvertMode,
    renamed: Result<Seq<TokenModel>, ConvertError>,
) -> bool {
    match renamed {
        Ok(after) => tokens_renamed(params, tokens, mode, after),
        Err(error) => error == ConvertError::UnwritableName && !no_names_outright(
            params,
            tokens,
            mode,
        ),
    }
}

/// Renames one token and the tokens under it.
fn rename_token(
    params: &MacroParameters,
    token: &Token,
    convert_mode: ConvertMode,
) -> (renamed: Option<Token>)
    ensures
        match renamed {
            Some(after) => token_renamed(params@, token@, convert_mode, after@),
            None => !no_name_outright(params@, token@, convert_mode),
        },
    decreases token,
{
    match token {
        Token::Ident(text) => {
            match params.rename_ident(text.as_str(), convert_mode) {
                Renamed::Unchanged => Some(Token::Ident(text.clone())),
                Renamed::To(name) => Some(Token::Ident(name)),
                Renamed::Unwritable => None,
            }
        },
        Token::Other(text) => Some(Token::Other(text.clone())),
        Token::Group(delimiter, inner) => {
            proof {
                lemma_group_model(*delimiter, *inner);
                lemma_group_names(params@, *delimiter, tokens_model(inner@), convert_mode);
            }
            let mut items: Vec<Token> = Vec::new();
            let mut i: usize = 0;
            while i < inner.len()
                invariant
                    i <= inner@.len(),
                    items@.len() == i,
                    token == Token::Group(*delimiter, *inner),
                    token@ == TokenModel::Group(*delimiter, tokens_model(inner@)),
                    no_name_outright(params@, token@, convert_mode) == no_names_outright(
                        params@,
                        tokens_model(inner@),
                        convert_mode,
                    ),
                    forall|j: int|
                        0 <= j < i ==> token_renamed(
                            params@,
                            #[trigger] tokens_model(inner@)[j],
                            convert_mode,
                            items@[j]@,
                        ),
                decreases inner@.len() - i,
            {
                proof {
                    assert(decreases_to!(*token => token->Group_1));
                    assert(decreases_to!(*inner => inner[i as int]));
                    assert(tokens_model(inner@)[i as int] == inner@[i as int]@);
                }
                match rename_token(params, &inner[i], convert_mode) {
                    Some(item) => {
                        items.push(item);
                    },
                    None => {
                        assert(!no_name_outright(
                            params@,
                            tokens_model(inner@)[i as int],
                            convert_mode,
                        ));
                        return None;
                    },
                }
                i += 1;
            }
            proof {
                lemma_group_model(*delimiter, items);
            }
            let after = Token::Group(*delimiter, items);
            assert(after@->Group_1 == tokens_model(items@));
            assert forall|j: int| 0 <= j < tokens_model(inner@).len() implies token_renamed(
                params@,
                #[trigger] tokens_model(inner@)[j],
                convert_mode,
                after@->Group_1[j],
            ) by {
                assert(after@->Group_1[j] == items@[j]@);
            }
            Some(after)
        },
    }
}

/// The renaming pass over the tokens of a unit for `convert_mode`: every
/// identifier that the configuration has a rule for is renamed under the
/// configuration's key, in groups of any depth, and every other token
/// stays as it is. A name that a rule gives outright is written as the
/// parser reads it; the pass is refused where the parser refuses one.
pub fn rename_tokens(
    params: &MacroParameters,
    tokens: &Vec<Token>,
    convert_mode: ConvertMode,
) -> (renamed: Result<Vec<Token>, ConvertError>)
    ensures
        renaming_pass(
            params@,
            tokens_model(tokens@),
            convert_mode,
            match renamed {
                Ok(after) => Ok(tokens_model(after@)),
                Err(error) => Err(error),
            },
        ),
{
    let mut output: Vec<Token> = Vec::new();
    let mut i: usize = 0;
    while i < tokens.len()
        invariant
            i <= tokens@.len(),
            output@.len() == i,
            forall|j: int|
                0 <= j < i ==> token_renamed(
                    params@,
                    #[trigger] tokens_model(tokens@)[j],
                    convert_mode,
                    output@[j]@,
                ),
        decreases tokens@.len() - i,
    {
        assert(tokens_model(tokens@)[i as int] == tokens@[i as int]@);
        match rename_token(params, &tokens[i], convert_mode) {
            Some(token) => {
                output.push(token);
            },
            None => {
                assert(!no_name_outright(
                    params@,
                    tokens_model(tokens@)[i as int],
                    convert_mode,
                ));
                return Err(ConvertError::UnwritableName);
            },
        }
        i += 1;
    }
    assert forall|j: int| 0 <= j < tokens_model(tokens@).len() implies token_renamed(
        params@,
        #[trigger] tokens_model(tokens@)[j],
        convert_mode,
        tokens_model(output@)[j],
    ) by {
        assert(tokens_model(output@)[j] == output@[j]@);
    }
    Ok(output)
}

/// The pass keeps the number of tokens, every token that is no identifier,
/// every identifier that the configuration has no rule for, and the
/// brackets and the number of tokens of every group.
pub proof fn lemma_pass_keeps_the_rest(
    params: ParamsModel,
    tokens: Seq<TokenModel>,
    mode: ConvertMode,
    after: Seq<TokenModel>,
    i: int,
)
    requires
        tokens_renamed(params, tokens, mode, after),
        0 <= i < tokens.len(),
    ensures
        after.len() == tokens.len(),
        tokens[i] is Other ==> after[i] == tokens[i],
        tokens[i] matches TokenModel::Ident(text) && lookup(params.idents, text).is_none()
            ==> after[i] == tokens[i],
        tokens[i] matches TokenModel::Group(delimiter, inner) ==> {
            &&& after[i] is Group
            &&& after[i]->Group_0 == delimiter
            &&& tokens_renamed(params, inner, mode, after[i]->Group_1)
        },
{
    assert(token_renamed(params, tokens[i], mode, after[i]));
}

/// An identifier whose rule does not give its name outright is written as
/// the rule says: as it is where the rule keeps it, and else with the
/// suffix of the mode.
pub proof fn lemma_pass_renames(
    params: ParamsModel,
    tokens: Seq<TokenModel>,
    mode: ConvertMode,
    after: Seq<TokenModel>,
    i: int,
)
    requires
        tokens_renamed(params, tokens, mode, after),
        0 <= i < tokens.len(),
        tokens[i] is Ident,
    ensures
        match renaming(params, tokens[i]->Ident_0, mode) {
            None => after[i] == tokens[i],
            Some(NameChoice::Keep) => after[i] == tokens[i],
            Some(NameChoice::Suffixed(name)) => after[i] == TokenModel::Ident(name),
            Some(NameChoice::Explicit(_)) => after[i] is Ident,
        },
{
    assert(token_renamed(params, tokens[i], mode, after[i]));
}

/// Where no identifier has a rule that gives its name outright, the pass
/// is not refused.
pub proof fn lemma_pass_succeeds(
    params: ParamsModel,
    tokens: Seq<TokenModel>,
    mode: ConvertMode,
    renamed: Result<Seq<TokenModel>, ConvertError>,
)
    requires
        renaming_pass(params, tokens, mode, renamed),
        no_names_outright(params, tokens, mode),
    ensures
        renamed.is_ok(),
{
}

/// A configuration without a key asks for no variant: the pass succeeds
/// and leaves every token as it is.
pub proof fn lemma_no_key_renames_nothing(
    params: ParamsModel,
    tokens: Seq<TokenModel>,
    mode: ConvertMode,
    renamed: Result<Seq<TokenModel>, ConvertError>,
)
    requires
        params.key.is_none(),
        renaming_pass(params, tokens, mode, renamed),
    ensures
        renamed == Ok::<Seq<TokenModel>, ConvertError>(tokens),
{
    lemma_no_key_names_nothing(params, tokens, mode);
    let after = renamed.unwrap();
    lemma_no_key_keeps_tokens(params, tokens, mode, after);
}

/// Without a key no rule gives a name.
proof fn lemma_no_key_names_nothing(params: ParamsModel, tokens: Seq<TokenModel>, mode: ConvertMode)
    requires
        params.key.is_none(),
    ensures
        no_names_outright(params, tokens, mode),
    decreases tokens,
{
    assert forall|i: int| 0 <= i < tokens.len() implies no_name_outright(
        params,
        #[trigger] tokens[i],
        mode,
    ) by {
        if let TokenModel::Group(_, inner) = tokens[i] {
            lemma_no_key_names_nothing(params, inner, mode);
        }
    }
}

/// Without a key the renamed tokens are the tokens.
proof fn lemma_no_key_keeps_tokens(
    params: ParamsModel,
    tokens: Seq<TokenModel>,
    mode: ConvertMode,
    after: Seq<TokenModel>,
)
    requires
        params.key.is_none(),
        tokens_renamed(params, tokens, mode, after),
    ensures
        after == tokens,
    decreases tokens,
{
    assert forall|i: int| 0 <= i < tokens.len() implies after[i] == tokens[i] by {
        assert(token_renamed(params, tokens[i], mode, after[i]));
        if let TokenModel::Group(delimiter, inner) = tokens[i] {
            lemma_no_key_keeps_tokens(params, inner, mode, after[i]->Group_1);
        }
    }
    assert(after =~= tokens);
}

} // verus!
