use maybe_async_cfg::directive::Directive;
use maybe_async_cfg::error::ConvertError;
use maybe_async_cfg::mode::ConvertMode;
use maybe_async_cfg::params::MacroParameters;
use maybe_async_cfg::tokens::{rename_tokens, Delimiter, Token};

fn ident(text: &str) -> Token {
    Token::Ident(text.to_string())
}

fn other(text: &str) -> Token {
    Token::Other(text.to_string())
}

fn group(delimiter: Delimiter, inner: Vec<Token>) -> Token {
    Token::Group(delimiter, inner)
}

fn read(args: Vec<Directive>) -> MacroParameters {
    MacroParameters::from_args(&args).unwrap()
}

/// `async fn fetch(c: &Client) -> u8 { c.get().await; helper(fetch, "fetch") }`
fn body(function: &str, client: &str) -> Vec<Token> {
    vec![
        ident("async"),
        ident("fn"),
        ident(function),
        group(
            Delimiter::Parenthesis,
            vec![ident("c"), other(":"), other("&"), ident(client)],
        ),
        other("-"),
        other(">"),
        ident("u8"),
        group(
            Delimiter::Brace,
            vec![
                ident("c"),
                other("."),
                ident("get"),
                group(Delimiter::Parenthesis, vec![]),
                other("."),
                ident("await"),
                other(";"),
                ident("helper"),
                group(
                    Delimiter::Parenthesis,
                    vec![ident(function), other(","), other("\"fetch\"")],
                ),
            ],
        ),
    ]
}

#[test]
fn identifiers_with_a_rule_are_renamed_at_every_depth() {
    let params = read(vec![
        Directive::pair("key", "sync"),
        Directive::list(
            "idents",
            vec![Directive::list("fetch", vec![Directive::flag("fn")]), Directive::flag("Client")],
        ),
    ]);
    assert_eq!(
        rename_tokens(&params, &body("fetch", "Client"), ConvertMode::IntoSync),
        Ok(body("fetch_sync", "ClientSync"))
    );
    assert_eq!(
        rename_tokens(&params, &body("fetch", "Client"), ConvertMode::IntoAsync),
        Ok(body("fetch_async", "ClientAsync"))
    );
}

#[test]
fn tokens_stay_without_a_key() {
    let params = read(vec![Directive::list(
        "idents",
        vec![Directive::list("fetch", vec![Directive::flag("fn")]), Directive::flag("Client")],
    )]);
    assert_eq!(
        rename_tokens(&params, &body("fetch", "Client"), ConvertMode::IntoSync),
        Ok(body("fetch", "Client"))
    );
    assert_eq!(
        rename_tokens(&MacroParameters::new(), &body("fetch", "Client"), ConvertMode::IntoAsync),
        Ok(body("fetch", "Client"))
    );
}

#[test]
fn tokens_stay_without_a_rule() {
    let params = read(vec![Directive::pair("key", "sync")]);
    assert_eq!(
        rename_tokens(&params, &body("fetch", "Client"), ConvertMode::IntoSync),
        Ok(body("fetch", "Client"))
    );
    assert_eq!(rename_tokens(&params, &vec![], ConvertMode::IntoSync), Ok(vec![]));
}

#[test]
fn explicit_names_are_written_as_raw_identifiers() {
    let params = read(vec![
        Directive::pair("key", "fast"),
        Directive::list(
            "idents",
            vec![
                Directive::list(
                    "fetch",
                    vec![Directive::pair("sync", "fetch_blocking"), Directive::pair("fast", "get")],
                ),
                Directive::list("Client", vec![Directive::pair("async", "Remote")]),
            ],
        ),
    ]);
    assert_eq!(
        rename_tokens(&params, &body("fetch", "Client"), ConvertMode::IntoAsync),
        Ok(body("r#get", "r#Remote"))
    );
    assert_eq!(
        rename_tokens(&params, &body("fetch", "Client"), ConvertMode::IntoSync),
        Ok(body("r#get", "ClientSync"))
    );
}

#[test]
fn unwritable_name_in_a_group_refuses_the_pass() {
    let params = read(vec![
        Directive::pair("key", "sync"),
        Directive::list(
            "idents",
            vec![Directive::list("Client", vec![Directive::pair("sync", "no name")])],
        ),
    ]);
    assert_eq!(
        rename_tokens(&params, &body("fetch", "Client"), ConvertMode::IntoSync),
        Err(ConvertError::UnwritableName)
    );
    assert_eq!(
        rename_tokens(&params, &body("fetch", "Client"), ConvertMode::IntoAsync),
        Ok(body("fetch", "ClientAsync"))
    );
    assert_eq!(
        rename_tokens(&params, &body("fetch", "Other"), ConvertMode::IntoSync),
        Ok(body("fetch", "Other"))
    );
}
