use reaper::RprError;
use reaper::config::{Config, Remote, Repository};

fn repo(name: &str) -> Repository {
    Remote::new(name.to_string()).create()
}

#[test]
fn config_from_toml_str_no_remote() {
    let s = r#"
        "#;
    let r = Config::from_toml(s.to_string());
    assert_eq!(r.unwrap().repository.is_none(), true);
}

#[test]
fn config_from_toml_str_single_remote() {
    let s = r#"
        [[repository]]
        name = "My Example Repository"
        description = "Singleton configured remote repository"
        "#;
    let r = Config::from_toml(s.to_string());
    assert_eq!(r.unwrap().repository.is_some(), true);
}

#[test]
fn config_from_toml_str_multi_remote() {
    let s = r#"
        [[repository]]
        name = "repository"
        description = "My helpful descriptor"
        url = "https://github.com/examplefork/rpr.git"
        upstream = "https://github.com/rossmurr4y/rpr.git"
        branch = "main"
        path = "docs/"

        [[repository]]
        name = "My Example Repository"
        description = "Singleton configured remote repository"
        "#;
    let r = Config::from_toml(s.to_string());
    assert_eq!(r.unwrap().repository.is_some(), true);
}

#[test]
fn remote_from_builder_pattern() {
    let name = String::from("Example001");
    let ex = Remote::new(name)
        .description(String::from("This is an example remote I am tracking"))
        .url(String::from("http://github.com/rossmurr4y/rpr"))
        .upstream(String::from("http://github.com/some_org/rpr"))
        .branch(String::from("development"))
        .path(String::from("/"))
        .create();
    assert_eq!(ex.url, Some(String::from("http://github.com/rossmurr4y/rpr")));
}

#[test]
fn parse_empty_document_is_empty_config() {
    let r = Config::from_toml(String::new()).unwrap();
    assert!(r.repository.is_none());
}

#[test]
fn parse_whitespace_with_crlf_lines_is_empty_config() {
    let r = Config::from_toml("  \r\n\t\r\n \n".to_string()).unwrap();
    assert!(r.repository.is_none());
}

#[test]
fn parse_maps_every_attribute_verbatim() {
    let s = "[[repository]]\nname = \"one\"\nurl = \"https://example.org/a.git\"\n\n[[repository]]\nname = \"two\"\nbranch = \"main\"\npath = \"docs/\"\n";
    let c = Config::from_toml(s.to_string()).unwrap();
    let repos = c.repository.unwrap();
    assert_eq!(repos.len(), 2);
    assert_eq!(repos[0].name.as_str(), "one");
    assert_eq!(repos[0].url.as_deref(), Some("https://example.org/a.git"));
    assert_eq!(repos[0].description, None);
    assert_eq!(repos[0].branch, None);
    assert_eq!(repos[1].name.as_str(), "two");
    assert_eq!(repos[1].branch.as_deref(), Some("main"));
    assert_eq!(repos[1].path.as_deref(), Some("docs/"));
    assert_eq!(repos[1].upstream, None);
}

#[test]
fn parse_comments_and_blank_lines_are_ignored() {
    let s = "# tracked repositories\n\n[[repository]]\n# the name\nname = \"a\"\n";
    let c = Config::from_toml(s.to_string()).unwrap();
    let repos = c.repository.unwrap();
    assert_eq!(repos.len(), 1);
    assert_eq!(repos[0].name.as_str(), "a");
}

#[test]
fn parse_rejects_non_string_value() {
    let s = "[[repository]]\nname = 5\n";
    let r = Config::from_toml(s.to_string());
    assert_eq!(r.unwrap_err(), RprError::ParseError);
}

#[test]
fn parse_rejects_unknown_key() {
    let s = "[[repository]]\nname = \"a\"\nflavor = \"b\"\n";
    let r = Config::from_toml(s.to_string());
    assert_eq!(r.unwrap_err(), RprError::ParseError);
}

#[test]
fn parse_rejects_block_without_name() {
    let s = "[[repository]]\nurl = \"https://example.org\"\n";
    let r = Config::from_toml(s.to_string());
    assert_eq!(r.unwrap_err(), RprError::ParseError);
}

#[test]
fn parse_rejects_key_outside_block() {
    let s = "name = \"a\"\n";
    let r = Config::from_toml(s.to_string());
    assert_eq!(r.unwrap_err(), RprError::ParseError);
}

#[test]
fn parse_empty_array_is_empty_list() {
    let c = Config::from_toml("repository = []\n".to_string()).unwrap();
    let repos = c.repository.unwrap();
    assert_eq!(repos.len(), 0);
}

#[test]
fn round_trip_no_repositories() {
    let c = Config { repository: None };
    let doc = c.to_toml();
    assert_eq!(doc.as_str(), "");
    let back = Config::from_toml(doc).unwrap();
    assert_eq!(back, Config { repository: None });
}

#[test]
fn round_trip_empty_list() {
    let c = Config { repository: Some(Vec::new()) };
    let doc = c.to_toml();
    assert_eq!(doc.as_str(), "repository = []\n");
    let back = Config::from_toml(doc).unwrap();
    assert_eq!(back, Config { repository: Some(Vec::new()) });
}

#[test]
fn round_trip_single_repository() {
    let c = Config {
        repository: Some(vec![
            Remote::new("alpha".to_string())
                .description("first".to_string())
                .url("https://example.org/alpha.git".to_string())
                .create(),
        ]),
    };
    let doc = c.to_toml();
    let back = Config::from_toml(doc).unwrap();
    assert_eq!(back, c);
}

#[test]
fn round_trip_many_repositories_with_field_combinations() {
    let c = Config {
        repository: Some(vec![
            repo("bare"),
            Remote::new("full".to_string())
                .description("all fields".to_string())
                .url("https://example.org/full.git".to_string())
                .upstream("https://example.org/upstream.git".to_string())
                .branch("main".to_string())
                .path("src/".to_string())
                .create(),
            Remote::new("partial".to_string()).branch("dev".to_string()).create(),
        ]),
    };
    let doc = c.to_toml();
    let back = Config::from_toml(doc).unwrap();
    assert_eq!(back, c);
}

#[test]
fn round_trip_escapes_special_characters() {
    let c = Config {
        repository: Some(vec![
            Remote::new("quote \" backslash \\ newline \n tab \t done".to_string())
                .description("line one\nline two".to_string())
                .create(),
        ]),
    };
    let doc = c.to_toml();
    let back = Config::from_toml(doc).unwrap();
    assert_eq!(back, c);
}

#[test]
fn serialized_form_is_canonical() {
    let c = Config {
        repository: Some(vec![
            Remote::new("a".to_string()).branch("main".to_string()).create(),
        ]),
    };
    assert_eq!(c.to_toml().as_str(), "[[repository]]\nname = \"a\"\nbranch = \"main\"\n");
}

#[test]
fn parse_rejects_raw_control_character_in_value() {
    let s = "[[repository]]\nname = \"\u{0007}\"\n";
    let r = Config::from_toml(s.to_string());
    assert_eq!(r.unwrap_err(), RprError::ParseError);
}

#[test]
fn parse_rejects_control_character_in_comment() {
    let s = "# bell \u{0007}\n";
    let r = Config::from_toml(s.to_string());
    assert_eq!(r.unwrap_err(), RprError::ParseError);
}

#[test]
fn parse_accepts_crlf_line_endings() {
    let s = "[[repository]]\r\nname = \"a\"\r\n";
    let c = Config::from_toml(s.to_string()).unwrap();
    assert_eq!(c.repository.unwrap()[0].name.as_str(), "a");
}

#[test]
fn parse_rejects_bare_carriage_return_inside_a_line() {
    let s = "[[repository]]\nname \r= \"a\"\n";
    let r = Config::from_toml(s.to_string());
    assert_eq!(r.unwrap_err(), RprError::ParseError);
}

#[test]
fn parse_rejects_trailing_bare_carriage_return() {
    let s = "[[repository]]\nname = \"a\"\r";
    let r = Config::from_toml(s.to_string());
    assert_eq!(r.unwrap_err(), RprError::ParseError);
}

#[test]
fn parse_unicode_escapes_in_values() {
    let s = "[[repository]]\nname = \"\\u0041\\u0007\"\n";
    let c = Config::from_toml(s.to_string()).unwrap();
    assert_eq!(c.repository.unwrap()[0].name.as_str(), "A\u{0007}");
}

#[test]
fn parse_eight_digit_unicode_escapes_in_values() {
    let s = "[[repository]]\nname = \"\\U00000041 and \\U0001F600\"\n";
    let c = Config::from_toml(s.to_string()).unwrap();
    assert_eq!(c.repository.unwrap()[0].name.as_str(), "A and \u{1F600}");
}

#[test]
fn parse_rejects_out_of_range_eight_digit_escape() {
    let s = "[[repository]]\nname = \"\\U00110000\"\n";
    let r = Config::from_toml(s.to_string());
    assert_eq!(r.unwrap_err(), RprError::ParseError);
}

#[test]
fn parse_rejects_surrogate_eight_digit_escape() {
    let s = "[[repository]]\nname = \"\\U0000D800\"\n";
    let r = Config::from_toml(s.to_string());
    assert_eq!(r.unwrap_err(), RprError::ParseError);
}

#[test]
fn parse_rejects_surrogate_unicode_escape() {
    let s = "[[repository]]\nname = \"\\uD800\"\n";
    let r = Config::from_toml(s.to_string());
    assert_eq!(r.unwrap_err(), RprError::ParseError);
}

#[test]
fn parse_rejects_malformed_unicode_escape() {
    let s = "[[repository]]\nname = \"\\uZZZZ\"\n";
    let r = Config::from_toml(s.to_string());
    assert_eq!(r.unwrap_err(), RprError::ParseError);
}

#[test]
fn parse_literal_strings_keep_backslashes() {
    let s = "[[repository]]\nname = 'plain'\npath = 'C:\\dir'\n";
    let c = Config::from_toml(s.to_string()).unwrap();
    let repos = c.repository.unwrap();
    assert_eq!(repos[0].name.as_str(), "plain");
    assert_eq!(repos[0].path.as_deref(), Some("C:\\dir"));
}

#[test]
fn parse_comments_after_values_and_headers() {
    let s = "[[repository]] # the block\nname = \"a\" # the name\n";
    let c = Config::from_toml(s.to_string()).unwrap();
    assert_eq!(c.repository.unwrap()[0].name.as_str(), "a");
}

#[test]
fn parse_accepts_whitespace_inside_header_brackets() {
    let s = "[[ repository ]]\nname = \"a\"\n";
    let c = Config::from_toml(s.to_string()).unwrap();
    assert_eq!(c.repository.unwrap()[0].name.as_str(), "a");
}

#[test]
fn serialized_control_characters_use_unicode_escapes() {
    let c = Config {
        repository: Some(vec![Remote::new("bell \u{0007} end".to_string()).create()]),
    };
    let doc = c.to_toml();
    assert_eq!(doc.as_str(), "[[repository]]\nname = \"bell \\u0007 end\"\n");
    let back = Config::from_toml(doc).unwrap();
    assert_eq!(back, c);
}

#[test]
fn init_document_on_missing_file_is_empty_config() {
    let doc = Config::init_document(None).unwrap();
    let back = Config::from_toml(doc).unwrap();
    assert!(back.repository.is_none());
}

#[test]
fn init_document_preserves_existing_repositories() {
    let existing = "[[repository]]\nname = \"keep\"\nurl = \"https://example.org/keep.git\"\n"
        .to_string();
    let doc = Config::init_document(Some(&existing)).unwrap();
    let back = Config::from_toml(doc).unwrap();
    let repos = back.repository.unwrap();
    assert_eq!(repos.len(), 1);
    assert_eq!(repos[0].name.as_str(), "keep");
    assert_eq!(repos[0].url.as_deref(), Some("https://example.org/keep.git"));
}

#[test]
fn init_document_rejects_unparseable_content() {
    let existing = "not toml at all }{".to_string();
    let r = Config::init_document(Some(&existing));
    assert_eq!(r.unwrap_err(), RprError::ParseError);
}
