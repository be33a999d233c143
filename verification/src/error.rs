//! What can be wrong with a directive list or a unit.
use vstd::prelude::*;

verus! {

/// The ways in which a directive list is refused. Each names the form that
/// was expected where something else stood.
#[derive(Debug, Clone, Copy, PartialEq, Eq, Structural)]
pub enum ConfigError {
    /// The name of a pair or of a list is a path of several segments.
    ExpectedName,
    /// A literal that is no string stands where a string is read.
    ExpectedStringLiteral,
    /// A pair has a name that no setting answers to.
    WrongNameValueName,
    /// `send` has a value other than `Send`, `?Send`, `true`, `false` or the
    /// empty string.
    WrongSendValue,
    /// `cfg(..)` does not hold exactly one condition.
    ExpectedCondition,
    /// A rename rule is named by a path of several segments.
    ExpectedIdent,
    /// A bare word in a rename rule is none of `fn`, `use`, `keep`, `sync`
    /// and `async`.
    ExpectedRuleFlag,
    /// An item of a rename rule is neither a bare word nor a pair with a
    /// string.
    ExpectedRuleItem,
    /// An element of `idents(..)` is neither a name nor a named list.
    ExpectedRule,
    /// An element of `drop_attrs(..)` is a path of several segments.
    ExpectedDropName,
    /// An element of `drop_attrs(..)` is no bare name.
    ExpectedDropList,
    /// `replace_feature(..)` does not hold exactly two elements.
    ExpectedTwoStringLiterals,
}

impl ConfigError {
    /// The message that goes with this error.
    pub fn message(&self) -> (text: &'static str)
        ensures
            text@ == error_message(*self),
    {
        match self {
            ConfigError::ExpectedName => "Expected name",
            ConfigError::ExpectedStringLiteral => "Expected string literal",
            ConfigError::WrongNameValueName => "Wrong name for name-value pair",
            ConfigError::WrongSendValue => "Only accepts `Send` or `?Send`",
            ConfigError::ExpectedCondition => "Expected condition",
            ConfigError::ExpectedIdent => "Expected ident, but not complex path",
            ConfigError::ExpectedRuleFlag => "Expected fn, use, keep, sync, async",
            ConfigError::ExpectedRuleItem => "Expected fn, sync = \"ident\", or async = \"ident\"",
            ConfigError::ExpectedRule => "Expected name = \"value\" pair",
            ConfigError::ExpectedDropName => "Expected ident",
            ConfigError::ExpectedDropList => "Expected list of idents",
            ConfigError::ExpectedTwoStringLiterals => "Expected two string literals",
        }
    }
}

/// The message of each error.
pub open spec fn error_message(error: ConfigError) -> Seq<char> {
    match error {
        ConfigError::ExpectedName => "Expected name"@,
        ConfigError::ExpectedStringLiteral => "Expected string literal"@,
        ConfigError::WrongNameValueName => "Wrong name for name-value pair"@,
        ConfigError::WrongSendValue => "Only accepts `Send` or `?Send`"@,
        ConfigError::ExpectedCondition => "Expected condition"@,
        ConfigError::ExpectedIdent => "Expected ident, but not complex path"@,
        ConfigError::ExpectedRuleFlag => "Expected fn, use, keep, sync, async"@,
        ConfigError::ExpectedRuleItem => "Expected fn, sync = \"ident\", or async = \"ident\""@,
        ConfigError::ExpectedRule => "Expected name = \"value\" pair"@,
        ConfigError::ExpectedDropName => "Expected ident"@,
        ConfigError::ExpectedDropList => "Expected list of idents"@,
        ConfigError::ExpectedTwoStringLiterals => "Expected two string literals"@,
    }
}

/// The ways in which the rewrite of a unit fails.
#[derive(Debug, Clone, Copy, PartialEq, Eq, Structural)]
pub enum ConvertError {
    /// The unit is no impl, struct, enum, trait, fn, use or mod item.
    UnsupportedUnit,
    /// A rename rule gives a name that the parser does not read as an
    /// identifier.
    UnwritableName,
}

impl ConvertError {
    /// The message that goes with this error.
    pub fn message(&self) -> (text: &'static str)
        ensures
            text@ == convert_error_message(*self),
    {
        match self {
            ConvertError::UnsupportedUnit => {
                "Allowed impl, struct, enum, trait, fn or use items only"
            },
            ConvertError::UnwritableName => "Expected a name that can be written as an identifier",
        }
    }
}

/// The message of each error of a rewrite.
pub open spec fn convert_error_message(error: ConvertError) -> Seq<char> {
    match error {
        ConvertError::UnsupportedUnit => "Allowed impl, struct, enum, trait, fn or use items only"@,
        ConvertError::UnwritableName => "Expected a name that can be written as an identifier"@,
    }
}

/// Why an attribute could not be expanded.
#[derive(Debug, Clone, Copy, PartialEq, Eq, Structural)]
pub enum MacroError {
    /// The directive list is refused.
    Config(ConfigError),
    /// The unit cannot be rewritten.
    Convert(ConvertError),
}

} // verus!
