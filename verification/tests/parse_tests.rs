use netrc::{Authenticator, Netrc};

fn auth(login: &str, account: &str, password: &str) -> Authenticator {
    Authenticator::new(login, account, password)
}

#[test]
fn test_toplevel_non_ordered_tokens() {
    let nrc = Netrc::from_str(
        "\
            machine host.domain.com password pass1 login log1 account acct1
            default login log2 password pass2 account acct2
        ",
    )
    .unwrap();

    assert_eq!(
        nrc.hosts.get("host.domain.com").unwrap(),
        &auth("log1", "acct1", "pass1")
    );
    assert_eq!(nrc.hosts.get("default").unwrap(), &auth("log2", "acct2", "pass2"));
}

#[test]
fn test_toplevel_tokens() {
    let nrc = Netrc::from_str(
        "\
            machine host.domain.com login log1 password pass1 account acct1
            default login log2 password pass2 account acct2
        ",
    )
    .unwrap();
    assert_eq!(
        nrc.hosts.get("host.domain.com").unwrap(),
        &auth("log1", "acct1", "pass1")
    );
    assert_eq!(nrc.hosts.get("default").unwrap(), &auth("log2", "acct2", "pass2"));
}

#[test]
fn test_macros() {
    let nrc = Netrc::from_str(
        "\
            macdef macro1
            line1
            line2

            macdef macro2
            line3
            line4
            ",
    )
    .unwrap();
    assert_eq!(
        nrc.macros.get("macro1").unwrap(),
        &vec!["line1".to_string(), "line2".to_string()]
    );
    assert_eq!(
        nrc.macros.get("macro2").unwrap(),
        &vec!["line3".to_string(), "line4".to_string()]
    );
}

#[test]
fn test_optional_tokens_machine() {
    let data = vec![
        "machine host.domain.com",
        "machine host.domain.com login",
        "machine host.domain.com account",
        "machine host.domain.com password",
        "machine host.domain.com login \"\" account",
        "machine host.domain.com login \"\" password",
        "machine host.domain.com account \"\" password",
    ];

    for item in data {
        let nrc = Netrc::from_str(item).unwrap();
        assert_eq!(nrc.hosts.get("host.domain.com").unwrap(), &auth("", "", ""));
    }
}

#[test]
fn test_optional_tokens_default() {
    let data = vec![
        "default",
        "default login",
        "default account",
        "default password",
        "default login \"\" account",
        "default login \"\" password",
        "default account \"\" password",
    ];

    for item in data {
        let nrc = Netrc::from_str(item).unwrap();
        assert_eq!(nrc.hosts.get("default").unwrap(), &auth("", "", ""));
    }
}

#[test]
fn test_invalid_tokens() {
    let data = vec![
        (
            "invalid host.domain.com",
            "parsing error: bad toplevel token 'invalid' (line 1)",
        ),
        (
            "machine host.domain.com invalid",
            "parsing error: bad follower token 'invalid' (line 1)",
        ),
        (
            "machine host.domain.com login log password pass account acct invalid",
            "parsing error: bad follower token 'invalid' (line 1)",
        ),
        (
            "default host.domain.com invalid",
            "parsing error: bad follower token 'host.domain.com' (line 1)",
        ),
        (
            "default host.domain.com login log password pass account acct invalid",
            "parsing error: bad follower token 'host.domain.com' (line 1)",
        ),
    ];

    for (item, msg) in data {
        let nrc = Netrc::from_str(item);
        assert_eq!(nrc.unwrap_err().to_text(), msg);
    }
}
