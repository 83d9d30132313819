use adante::{ArgumentType, Arguments, Error, Flag};

#[derive(Debug, Clone, Copy, PartialEq)]
pub enum TestErrorType {
    Syntax,
    FlagVal,
    NoFlagVal,
    NotRecognized,
}
impl Error for TestErrorType {
    fn handle(&self) {
        println!("{}", self.as_str());
    }
    fn as_str(&self) -> &str {
        match self {
            Self::FlagVal => "No associated value for given flag",
            Self::NoFlagVal => "Need associated value for given flag",
            Self::Syntax => "Improper syntax usage",
            Self::NotRecognized => "Action or flag is not recognized",
        }
    }
}

#[derive(Debug, Clone, Copy, PartialEq)]
enum TestFlagType {
    Help,
    Verbose,
    Print,
    TestFail, // NOTE: For testing only, use instead of exiting the process
}
impl ArgumentType for TestFlagType {
    // Ghost item of the trait; it is never run.
    fn spec_from_str(_key: vstd::seq::Seq<char>) -> Option<Self> {
        unreachable!()
    }
    fn from_str<E: Error>(key: &str, error: E) -> Result<Self, E> {
        match key {
            "-h" | "--help" => Ok(Self::Help),
            "-v" | "--verbose" => Ok(Self::Verbose),
            "-p" | "--print" => Ok(Self::Print),
            _ => Err(error),
        }
    }
}

#[derive(Debug, Clone, Copy, PartialEq)]
enum TestActionType {
    Add,
    Remove,
    Edit,
    TestFail, // NOTE: For testing only, use instead of exiting the process
}

impl ArgumentType for TestActionType {
    // Ghost item of the trait; it is never run.
    fn spec_from_str(_key: vstd::seq::Seq<char>) -> Option<Self> {
        unreachable!()
    }
    fn from_str<E: Error>(key: &str, error: E) -> Result<Self, E> {
        match key {
            "add" | "a" => Ok(Self::Add),
            "remove" | "r" => Ok(Self::Remove),
            "edit" | "e" => Ok(Self::Edit),
            _ => Err(error),
        }
    }
}

// "Simulates" running a program with arguments, the program name left out.
fn simulate(env_args: Vec<&str>) -> Result<Arguments<TestFlagType, TestActionType>, TestErrorType> {
    Arguments::parse(env_args, TestErrorType::Syntax)
}

#[test]
fn parse_flag_key_from_str() {
    let env_args = match simulate(vec!["-v"]) {
        Ok(a) => a,
        Err(_) => Arguments::new(),
    };
    assert_eq!(env_args.flags[0].key, TestFlagType::Verbose)
}

#[test]
fn parse_flag_val_from_str() {
    let env_args = match simulate(vec!["-h=test"]) {
        Ok(a) => a,
        Err(_) => Arguments::new(),
    };
    assert_eq!(env_args.flags[0].value, Some("test".to_string()));
}

#[test]
fn no_misinterpret_flag_as_action() {
    let env_args = match simulate(vec!["-v"]) {
        Ok(a) => a,
        Err(_) => Arguments::new(),
    };
    assert_eq!(env_args.actions.len(), 0);
}

#[test]
fn parse_noval_flag() {
    let env_args = match simulate(vec!["-v"]) {
        Ok(a) => a,
        Err(_) => Arguments::new(),
    };
    assert_eq!(env_args.flags[0].key, TestFlagType::Verbose);
    assert_eq!(env_args.flags[0].value, None);
    assert_eq!(env_args.actions.len(), 0);
}

#[test]
fn parse_val_flag() {
    let env_args = match simulate(vec!["-h=test"]) {
        Ok(a) => a,
        Err(_) => Arguments::new(),
    };
    assert_eq!(env_args.flags[0].key, TestFlagType::Help);
    assert_eq!(env_args.flags[0].value, Some("test".to_string()));
    assert_eq!(env_args.actions.len(), 0);
}

#[test]
fn flag_from_str() {
    let ref_string = "-v";
    let result = match TestFlagType::from_str(ref_string, TestErrorType::Syntax) {
        Ok(t) => t,
        Err(_) => TestFlagType::TestFail,
    };
    assert_eq!(result, TestFlagType::Verbose)
}

#[test]
fn action_from_str() {
    let ref_string = "add";
    let result = match TestActionType::from_str(ref_string, TestErrorType::Syntax) {
        Ok(t) => t,
        Err(_) => TestActionType::TestFail,
    };
    assert_eq!(result, TestActionType::Add)
}

#[test]
fn parse_action_from_str() {
    let env_args = match simulate(vec!["add"]) {
        Ok(a) => a,
        Err(_) => Arguments::new(),
    };
    assert_eq!(env_args.actions[0], TestActionType::Add)
}

#[test]
fn no_misinterpret_action_as_flag() {
    let env_args = match simulate(vec!["add"]) {
        Ok(a) => a,
        Err(_) => Arguments::new(),
    };
    assert_eq!(env_args.flags.len(), 0)
}

#[test]
fn parse_action() {
    let env_args = match simulate(vec!["add"]) {
        Ok(a) => a,
        Err(_) => Arguments::new(),
    };
    assert_eq!(env_args.actions[0], TestActionType::Add);
    assert_eq!(env_args.actions.len(), 1);
    assert_eq!(env_args.flags.len(), 0);
}

#[test]
fn new_is_empty() {
    let blank: Arguments<TestFlagType, TestActionType> = Arguments::new();
    assert_eq!(blank.flags.len(), 0);
    assert_eq!(blank.actions.len(), 0);
}

#[test]
fn parse_empty_input() {
    let env_args = simulate(vec![]).expect("empty input must parse");
    assert_eq!(env_args.flags.len(), 0);
    assert_eq!(env_args.actions.len(), 0);
}

#[test]
fn parse_flag_and_action() {
    let env_args = simulate(vec!["-v", "add"]).expect("both tokens are recognized");
    assert_eq!(env_args.flags.len(), 1);
    assert_eq!(env_args.flags[0].key, TestFlagType::Verbose);
    assert_eq!(env_args.flags[0].value, None);
    assert_eq!(env_args.actions.len(), 1);
    assert_eq!(env_args.actions[0], TestActionType::Add);
}

#[test]
fn unrecognized_flag_returns_error() {
    let result = simulate(vec!["-x"]);
    assert_eq!(result.unwrap_err(), TestErrorType::Syntax);
}

#[test]
fn unrecognized_action_returns_error() {
    let result = simulate(vec!["install"]);
    assert_eq!(result.unwrap_err(), TestErrorType::Syntax);
}

#[test]
fn error_value_comes_back_unchanged() {
    let result: Result<Arguments<TestFlagType, TestActionType>, TestErrorType> =
        Arguments::parse(vec!["-x"], TestErrorType::NotRecognized);
    assert_eq!(result.unwrap_err(), TestErrorType::NotRecognized);
}

#[test]
fn empty_token_rejected() {
    let result = simulate(vec![""]);
    assert_eq!(result.unwrap_err(), TestErrorType::Syntax);
}

#[test]
fn value_may_be_empty() {
    let env_args = simulate(vec!["-h="]).expect("key before = is recognized");
    assert_eq!(env_args.flags[0].key, TestFlagType::Help);
    assert_eq!(env_args.flags[0].value, Some(String::new()));
}

#[test]
fn only_first_separator_splits() {
    let env_args = simulate(vec!["-h=a=b"]).expect("key before first = is recognized");
    assert_eq!(env_args.flags.len(), 1);
    assert_eq!(env_args.flags[0].key, TestFlagType::Help);
    assert_eq!(env_args.flags[0].value, Some("a=b".to_string()));
}

#[test]
fn long_flag_with_value() {
    let env_args = simulate(vec!["--print=out.txt"]).expect("long flag key is recognized");
    assert_eq!(env_args.flags[0].key, TestFlagType::Print);
    assert_eq!(env_args.flags[0].value, Some("out.txt".to_string()));
}

#[test]
fn all_actions_accepted_in_order() {
    let env_args = simulate(vec!["add", "remove", "e"]).expect("all actions are recognized");
    assert_eq!(env_args.flags.len(), 0);
    assert_eq!(env_args.actions.len(), 3);
    assert_eq!(env_args.actions[0], TestActionType::Add);
    assert_eq!(env_args.actions[1], TestActionType::Remove);
    assert_eq!(env_args.actions[2], TestActionType::Edit);
}

#[test]
fn order_preserved_within_collections() {
    let env_args = simulate(vec!["-v", "add", "-h", "remove", "-p=1"])
        .expect("every token is recognized");
    assert_eq!(env_args.flags.len(), 3);
    assert_eq!(env_args.flags[0].key, TestFlagType::Verbose);
    assert_eq!(env_args.flags[1].key, TestFlagType::Help);
    assert_eq!(env_args.flags[2].key, TestFlagType::Print);
    assert_eq!(env_args.flags[2].value, Some("1".to_string()));
    assert_eq!(env_args.actions.len(), 2);
    assert_eq!(env_args.actions[0], TestActionType::Add);
    assert_eq!(env_args.actions[1], TestActionType::Remove);
}

#[test]
fn fail_fast_returns_only_the_error() {
    let result = simulate(vec!["-v", "add", "-x", "remove"]);
    assert!(matches!(result, Err(TestErrorType::Syntax)));
}

#[test]
fn every_token_counted_once() {
    let env_args = simulate(vec!["-v", "add", "--help=me", "r"]).expect("all recognized");
    assert_eq!(env_args.flags.len() + env_args.actions.len(), 4);
}

#[test]
fn flag_fields_are_plain_data() {
    let flag: Flag<TestFlagType> = Flag {
        key: TestFlagType::Verbose,
        value: Some("x".to_string()),
    };
    assert_eq!(flag.key, TestFlagType::Verbose);
    assert_eq!(flag.value.as_deref(), Some("x"));
}
