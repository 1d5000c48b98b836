use x3_counter::command::args::{
    is_bound, same_bound, ArgKind, ArgumentSpec, BaseArg, IntArg, RemoteArgument, RemoteBound,
    StringArg, UserArg,
};
use x3_counter::text::{is_text_le, lines, same_texts};

fn base(name: &'static str) -> BaseArg {
    BaseArg { name, description: "a description", required: false }
}

fn remote(kind: ArgKind, name: &str) -> RemoteArgument {
    RemoteArgument {
        kind,
        name: name.to_owned(),
        description: "a description".to_owned(),
        required: false,
        min_value: RemoteBound::Missing,
        max_value: RemoteBound::Missing,
        choices: Vec::new(),
    }
}

fn owned(choices: &[&str]) -> Vec<String> {
    choices.iter().map(|c| c.to_string()).collect()
}

#[test]
fn integer_argument_matches_its_registration() {
    let arg = IntArg { base: base("send_on"), min: Some(2), max: Some(100) };
    let registered = arg.to_arg();
    assert_eq!(registered.kind, ArgKind::Integer);
    assert_eq!(registered.name, "send_on");
    assert_eq!(registered.description, "a description");
    assert!(!registered.required);
    assert_eq!(registered.min_value, RemoteBound::Value(2));
    assert_eq!(registered.max_value, RemoteBound::Value(100));
    assert!(registered.choices.is_empty());
    assert!(arg.eq(&registered));
    assert_eq!(arg.name(), "send_on");
}

#[test]
fn integer_argument_compares_bounds_exactly() {
    let arg = IntArg { base: base("count"), min: Some(1), max: None };
    let mut other = remote(ArgKind::Integer, "count");
    assert!(!arg.eq(&other));
    other.min_value = RemoteBound::Value(1);
    assert!(arg.eq(&other));
    other.max_value = RemoteBound::Value(5);
    assert!(!arg.eq(&other));
    other.max_value = RemoteBound::Missing;
    other.min_value = RemoteBound::Value(2);
    assert!(!arg.eq(&other));
}

#[test]
fn integer_argument_compares_kind_and_base() {
    let arg = IntArg { base: base("count"), min: None, max: None };
    assert!(arg.eq(&remote(ArgKind::Integer, "count")));
    assert!(!arg.eq(&remote(ArgKind::User, "count")));
    assert!(!arg.eq(&remote(ArgKind::String, "count")));
    assert!(!arg.eq(&remote(ArgKind::Other, "count")));
    assert!(!arg.eq(&remote(ArgKind::Integer, "Count")));
    let mut other = remote(ArgKind::Integer, "count");
    other.required = true;
    assert!(!arg.eq(&other));
    let mut other = remote(ArgKind::Integer, "count");
    other.description = "another description".to_owned();
    assert!(!arg.eq(&other));
}

#[test]
fn user_argument_ignores_bounds_and_choices() {
    let arg = UserArg { base: base("user") };
    let mut other = remote(ArgKind::User, "user");
    assert!(arg.eq(&other));
    other.min_value = RemoteBound::Value(3);
    other.choices = owned(&["a"]);
    assert!(arg.eq(&other));
    assert!(!arg.eq(&remote(ArgKind::Integer, "user")));
    assert!(arg.eq(&arg.to_arg()));
    assert_eq!(arg.to_arg().kind, ArgKind::User);
    assert_eq!(arg.name(), "user");
}

#[test]
fn choices_are_the_lines_of_the_list() {
    let arg = StringArg { base: base("mode"), choices: "loud\nquiet\noff" };
    assert_eq!(arg.gen_choices(), vec!["loud", "quiet", "off"]);
    let none = StringArg { base: base("mode"), choices: "" };
    assert!(none.gen_choices().is_empty());
    let one = StringArg { base: base("mode"), choices: "only" };
    assert_eq!(one.gen_choices(), vec!["only"]);
    let trailing = StringArg { base: base("mode"), choices: "a\n" };
    assert_eq!(trailing.gen_choices(), vec!["a", ""]);
    let blank = StringArg { base: base("mode"), choices: "\n" };
    assert_eq!(blank.gen_choices(), vec!["", ""]);
}

#[test]
fn lines_agree_with_split() {
    for text in ["", "a", "a\nb", "\na", "a\n\nb", "x3\n:3\n;3", "\n\n"] {
        let expected: Vec<&str> = text.split('\n').collect();
        assert_eq!(lines(text), expected);
    }
}

#[test]
fn choice_order_does_not_matter() {
    let arg = StringArg { base: base("mode"), choices: "loud\nquiet\noff" };
    let mut other = remote(ArgKind::String, "mode");
    other.choices = owned(&["off", "loud", "quiet"]);
    assert!(arg.eq(&other));
    other.choices = owned(&["loud", "quiet", "off"]);
    assert!(arg.eq(&other));
    let permuted = StringArg { base: base("mode"), choices: "quiet\noff\nloud" };
    assert!(permuted.eq(&other));
    assert!(permuted.eq(&arg.to_arg()));
}

#[test]
fn choice_counts_matter() {
    let arg = StringArg { base: base("mode"), choices: "a\na\nb" };
    let mut other = remote(ArgKind::String, "mode");
    other.choices = owned(&["a", "b", "a"]);
    assert!(arg.eq(&other));
    other.choices = owned(&["a", "b", "b"]);
    assert!(!arg.eq(&other));
    other.choices = owned(&["a", "b"]);
    assert!(!arg.eq(&other));
    other.choices = owned(&["a", "a", "b", "b"]);
    assert!(!arg.eq(&other));
}

#[test]
fn choice_argument_compares_kind_and_base() {
    let arg = StringArg { base: base("mode"), choices: "" };
    assert!(arg.eq(&remote(ArgKind::String, "mode")));
    assert!(!arg.eq(&remote(ArgKind::Integer, "mode")));
    assert!(!arg.eq(&remote(ArgKind::String, "other")));
    let mut other = remote(ArgKind::String, "mode");
    other.choices = owned(&["a"]);
    assert!(!arg.eq(&other));
    assert_eq!(arg.name(), "mode");
}

#[test]
fn choice_argument_registers_every_choice() {
    let arg = StringArg { base: base("mode"), choices: "loud\nquiet" };
    let registered = arg.to_arg();
    assert_eq!(registered.kind, ArgKind::String);
    assert_eq!(registered.choices, owned(&["loud", "quiet"]));
    assert!(arg.eq(&registered));
}

#[test]
fn argument_spec_dispatches_by_kind() {
    let int = ArgumentSpec::Integer(IntArg { base: base("n"), min: Some(1), max: Some(5) });
    let user = ArgumentSpec::EntityRef(UserArg { base: base("u") });
    let choice = ArgumentSpec::Choice(StringArg { base: base("c"), choices: "x\ny" });
    assert_eq!(int.name(), "n");
    assert_eq!(user.name(), "u");
    assert_eq!(choice.name(), "c");
    assert!(int.eq(&int.to_arg()));
    assert!(user.eq(&user.to_arg()));
    assert!(choice.eq(&choice.to_arg()));
    assert!(!int.eq(&user.to_arg()));
    assert!(!user.eq(&choice.to_arg()));
    assert!(!choice.eq(&int.to_arg()));
}

#[test]
fn base_compares_three_fields() {
    let b = BaseArg { name: "n", description: "d", required: true };
    let mut other = remote(ArgKind::Other, "n");
    other.description = "d".to_owned();
    other.required = true;
    assert!(b.eq(&other));
    other.required = false;
    assert!(!b.eq(&other));
    let made = b.to_arg(ArgKind::User);
    assert_eq!(made.kind, ArgKind::User);
    assert_eq!(made.name, "n");
    assert_eq!(made.description, "d");
    assert!(made.required);
}

#[test]
fn bounds_compare_as_options() {
    assert!(same_bound(None, None));
    assert!(same_bound(Some(3), Some(3)));
    assert!(!same_bound(Some(3), Some(4)));
    assert!(!same_bound(None, Some(0)));
    assert!(!same_bound(Some(0), None));
}

#[test]
fn same_texts_is_multiset_equality() {
    assert!(same_texts(&vec![], &owned(&[])));
    assert!(same_texts(&vec!["a", "b"], &owned(&["b", "a"])));
    assert!(!same_texts(&vec!["a", "b"], &owned(&["b", "c"])));
    assert!(!same_texts(&vec!["a"], &owned(&["a", "a"])));
    assert!(same_texts(&vec!["a", "a", "b"], &owned(&["a", "b", "a"])));
    assert!(!same_texts(&vec!["a", "a", "b"], &owned(&["a", "b", "b"])));
}

#[test]
fn text_order_is_by_code_point() {
    assert!(is_text_le("", ""));
    assert!(is_text_le("", "a"));
    assert!(!is_text_le("a", ""));
    assert!(is_text_le("a", "b"));
    assert!(!is_text_le("b", "a"));
    assert!(is_text_le("ab", "abc"));
    assert!(!is_text_le("abc", "ab"));
    assert!(is_text_le(":3", "x3"));
    assert!(is_text_le("X3", "x3"));
    assert!(is_text_le("x3", "x3"));
    for (a, b) in [("uwu", "owo"), ("é", "z"), (":3", ";3"), ("x3", "x33")] {
        assert_eq!(is_text_le(a, b), a <= b);
        assert_eq!(is_text_le(b, a), b <= a);
    }
}

#[test]
fn missing_bound_agrees_only_with_a_missing_bound() {
    let arg = IntArg { base: base("count"), min: None, max: None };
    let mut other = remote(ArgKind::Integer, "count");
    assert!(arg.eq(&other));
    other.min_value = RemoteBound::Other;
    assert!(!arg.eq(&other));
    other.min_value = RemoteBound::Missing;
    other.max_value = RemoteBound::Other;
    assert!(!arg.eq(&other));
    other.max_value = RemoteBound::Value(0);
    assert!(!arg.eq(&other));
    let bounded = IntArg { base: base("count"), min: Some(0), max: None };
    other.max_value = RemoteBound::Missing;
    other.min_value = RemoteBound::Other;
    assert!(!bounded.eq(&other));
    other.min_value = RemoteBound::Value(0);
    assert!(bounded.eq(&other));
}

#[test]
fn registered_bounds_compare_with_declared_ones() {
    assert!(is_bound(RemoteBound::Missing, None));
    assert!(is_bound(RemoteBound::Value(3), Some(3)));
    assert!(!is_bound(RemoteBound::Value(3), Some(4)));
    assert!(!is_bound(RemoteBound::Value(0), None));
    assert!(!is_bound(RemoteBound::Missing, Some(0)));
    assert!(!is_bound(RemoteBound::Other, None));
    assert!(!is_bound(RemoteBound::Other, Some(0)));
}
