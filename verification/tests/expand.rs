use rsh::expand::{
    expand_all, expand_one, expand_word, separators_from, AmbiguousRedirect, Environment, MapEnv,
};
use rsh::parse;
use rsh::span::Span;
use rsh::word::{Parameter, Word, WordPart};

/// Expand a whole command line against a given environment.
fn expand(input: &str, env: &MapEnv) -> Vec<String> {
    let pipeline = parse(input)
        .expect("expected input to parse")
        .expect("expected a command");
    expand_all(pipeline.commands()[0].words(), env)
}

#[test]
fn plain_words_pass_through() {
    assert_eq!(expand("echo hello", &MapEnv::new()), ["echo", "hello"]);
}

#[test]
fn a_variable_is_substituted() {
    let env = MapEnv::new().with("NAME", "world");
    assert_eq!(expand("echo $NAME", &env), ["echo", "world"]);
    assert_eq!(expand("echo ${NAME}", &env), ["echo", "world"]);
}

#[test]
fn braces_stop_the_name_early() {
    let env = MapEnv::new().with("X", "a");
    assert_eq!(expand("echo ${X}b", &env), ["echo", "ab"]);
    // Without braces the name would be `Xb`, which is unset — and an
    // unset unquoted variable produces no argument at all.
    assert_eq!(expand("echo $Xb", &env), ["echo"]);
}

#[test]
fn an_unquoted_expansion_is_split_into_fields() {
    let env = MapEnv::new().with("LIST", "a b   c");
    assert_eq!(expand("echo $LIST", &env), ["echo", "a", "b", "c"]);
}

#[test]
fn a_quoted_expansion_is_exactly_one_field() {
    let env = MapEnv::new().with("LIST", "a b   c");
    assert_eq!(expand(r#"echo "$LIST""#, &env), ["echo", "a b   c"]);
}

#[test]
fn leading_and_trailing_separators_do_not_make_empty_fields() {
    let env = MapEnv::new().with("PADDED", "   a  b   ");
    assert_eq!(expand("echo $PADDED", &env), ["echo", "a", "b"]);
}

#[test]
fn an_unset_variable_unquoted_produces_no_argument_at_all() {
    // This is the difference that bites people: `cmd $EMPTY` passes zero
    // arguments, `cmd "$EMPTY"` passes one.
    assert_eq!(expand("echo $NOPE", &MapEnv::new()), ["echo"]);
    assert_eq!(expand(r#"echo "$NOPE""#, &MapEnv::new()), ["echo", ""]);
}

#[test]
fn empty_quotes_are_an_argument() {
    assert_eq!(expand(r#"echo "" x"#, &MapEnv::new()), ["echo", "", "x"]);
    assert_eq!(expand("echo '' x", &MapEnv::new()), ["echo", "", "x"]);
}

#[test]
fn a_quoted_empty_tail_keeps_the_argument_alive() {
    // `$NOPE` alone would vanish; the quotes say "I want an argument here".
    assert_eq!(expand(r#"echo $NOPE"""#, &MapEnv::new()), ["echo", ""]);
}

#[test]
fn literal_spaces_are_never_split() {
    // The word was escaped, so the space is data, not a separator.
    assert_eq!(expand(r"echo a\ b", &MapEnv::new()), ["echo", "a b"]);
}

#[test]
fn adjacent_parts_concatenate() {
    let env = MapEnv::new().with("USER", "ferris");
    assert_eq!(
        expand("echo /home/$USER/src", &env),
        ["echo", "/home/ferris/src"]
    );
}

#[test]
fn special_parameters_resolve() {
    let env = MapEnv::new().with_status(42);
    assert_eq!(expand("echo $?", &env), ["echo", "42"]);
    assert_eq!(expand("echo $$", &env), ["echo", "1234"]);
}

#[test]
fn tilde_becomes_home() {
    let env = MapEnv::new().with("HOME", "/home/ferris");
    assert_eq!(expand("echo ~", &env), ["echo", "/home/ferris"]);
    assert_eq!(expand("echo ~/src", &env), ["echo", "/home/ferris/src"]);
}

#[test]
fn tilde_without_home_stays_a_tilde() {
    // Expanding to nothing would turn `~/notes` into `/notes`, which is a
    // real path, and not the one anybody meant.
    assert_eq!(expand("echo ~/notes", &MapEnv::new()), ["echo", "~/notes"]);
}

#[test]
fn a_custom_ifs_changes_the_split() {
    let env = MapEnv::new()
        .with("IFS", ":")
        .with("PATH_LIKE", "/bin:/usr/bin");
    assert_eq!(
        expand("echo $PATH_LIKE", &env),
        ["echo", "/bin", "/usr/bin"]
    );
}

#[test]
fn a_redirect_target_must_be_a_single_word() {
    let env = MapEnv::new().with("TWO", "a b").with("ONE", "a");
    let pipeline = parse("cmd > $TWO").unwrap().unwrap();
    let target = pipeline.commands()[0].redirects()[0].kind().target();
    assert_eq!(
        expand_one(target, &env),
        Err(AmbiguousRedirect { fields: 2 })
    );

    let pipeline = parse("cmd > $ONE").unwrap().unwrap();
    let target = pipeline.commands()[0].redirects()[0].kind().target();
    assert_eq!(expand_one(target, &env), Ok("a".to_owned()));
}

#[test]
fn the_environment_answers_what_it_was_given() {
    let env = MapEnv::new().with("A", "1").with("A", "2").with_status(7);
    assert_eq!(env.var("A"), Some("2".to_owned()));
    assert_eq!(env.var("B"), None);
    assert_eq!(env.last_status(), 7);
    assert_eq!(env.pid(), 1234);
    assert_eq!(env.field_separators(), " \t\n");
    assert_eq!(MapEnv::default().var("A"), None);
}

#[test]
fn a_word_expands_by_the_values_handed_to_it() {
    let word = Word::new(
        vec![
            WordPart::Literal("x".into()),
            WordPart::Parameter { param: Parameter::Named("V".into()), quoted: false },
        ],
        Span::new(0, 3),
        false,
    );
    let values = vec![String::new(), "a:b".to_owned()];
    assert_eq!(expand_word(&word, &values, ":"), ["xa", "b"]);
    assert_eq!(expand_word(&word, &values, " "), ["xa:b"]);
}

#[test]
fn an_ambiguous_target_says_how_many_words() {
    assert_eq!(AmbiguousRedirect { fields: 3 }.message(), "ambiguous redirect: expanded to 3 words");
}

#[test]
fn unsplit_words_stay_one_argument_whatever_the_separators() {
    let env = MapEnv::new().with("IFS", "abc").with("V", "a b c");
    assert_eq!(expand("echo \"$V\"abc", &env), ["echo", "a b cabc"]);
    assert_eq!(expand("echo $V", &env), ["echo", " ", " "]);
}

#[test]
fn ifs_gives_the_separators_when_set() {
    assert_eq!(separators_from(None), " \t\n");
    assert_eq!(separators_from(Some(":".to_owned())), ":");
    assert_eq!(MapEnv::new().with("IFS", ",").field_separators(), ",");
}

#[test]
fn two_runs_of_words_expand_to_their_fields_in_turn() {
    let env = MapEnv::new().with("LIST", "a b").with("ONE", "x");
    let pipeline = parse("echo $LIST \"$LIST\" $ONE").unwrap().unwrap();
    let words = pipeline.commands()[0].words();
    let whole = expand_all(words, &env);
    let mut parts = expand_all(&words[..2], &env);
    parts.extend(expand_all(&words[2..], &env));
    assert_eq!(whole, parts);
    assert_eq!(whole, ["echo", "a", "b", "a b", "x"]);
    assert_eq!(expand_all(&[], &env), Vec::<String>::new());
}
