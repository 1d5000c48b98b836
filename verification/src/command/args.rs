//! The schema of one command argument, and when a registered argument agrees
//! with it.
//!
//! An argument is an integer with optional bounds, a reference to a user, or a
//! text with a fixed list of choices. What the registry holds for an argument
//! is a [`RemoteArgument`]; the same shape describes what the library asks the
//! registry to hold.

use crate::text::{lines, same_texts, slice_views, split_lines, string_views};
use vstd::prelude::*;
use vstd::string::StringExecFns;

verus! {

/// The kind of value that an argument takes.
#[derive(Debug, Clone, Copy, PartialEq, Eq, Structural)]
pub enum ArgKind {
    /// A whole number.
    Integer,
    /// A reference to a user.
    User,
    /// A text, possibly restricted to a list of choices.
    String,
    /// Any kind that no argument of this schema has.
    Other,
}

/// A bound of an integer argument as the registry holds it.
#[derive(Debug, Clone, Copy, PartialEq, Eq, Structural)]
pub enum RemoteBound {
    /// No bound.
    Missing,
    /// A whole number that is not negative.
    Value(u64),
    /// A bound of any other form, which no argument of this schema has.
    Other,
}

/// The registered form of a declared bound.
pub open spec fn bound_of(bound: Option<u64>) -> RemoteBound {
    match bound {
        Some(value) => RemoteBound::Value(value),
        None => RemoteBound::Missing,
    }
}

/// An argument as the registry holds it.
#[derive(Debug, Clone)]
pub struct RemoteArgument {
    pub kind: ArgKind,
    pub name: String,
    pub description: String,
    pub required: bool,
    pub min_value: RemoteBound,
    pub max_value: RemoteBound,
    /// The values of the choices, in the registry's order.
    pub choices: Vec<String>,
}

/// The mathematical content of an argument, local or registered.
pub struct ArgumentView {
    pub kind: ArgKind,
    pub name: Seq<char>,
    pub description: Seq<char>,
    pub required: bool,
    pub min_value: RemoteBound,
    pub max_value: RemoteBound,
    pub choices: Seq<Seq<char>>,
}

impl View for RemoteArgument {
    type V = ArgumentView;

    open spec fn view(&self) -> ArgumentView {
        ArgumentView {
            kind: self.kind,
            name: self.name@,
            description: self.description@,
            required: self.required,
            min_value: self.min_value,
            max_value: self.max_value,
            choices: string_views(self.choices@),
        }
    }
}

/// What every argument has: a name, a description, and whether it must be
/// given.
#[derive(Debug, Clone)]
pub struct BaseArg {
    pub name: &'static str,
    pub description: &'static str,
    pub required: bool,
}

/// An integer argument with optional inclusive bounds.
#[derive(Debug, Clone)]
pub struct IntArg {
    pub base: BaseArg,
    pub min: Option<u64>,
    pub max: Option<u64>,
}

/// An argument that refers to a user.
#[derive(Debug, Clone)]
pub struct UserArg {
    pub base: BaseArg,
}

/// A text argument. `choices` lists the allowed values, one per line; the
/// empty text means that there are none.
#[derive(Debug, Clone)]
pub struct StringArg {
    pub base: BaseArg,
    pub choices: &'static str,
}

/// Whether a registered argument agrees with a declared one, given both by
/// their content. The rule depends on the declared kind:
/// an integer compares kind, base and both bounds; a user reference compares
/// kind and base; a text compares kind, base and the choices, whose order
/// does not count while the number of times each occurs does.
pub open spec fn argument_matches(local: ArgumentView, remote: ArgumentView) -> bool {
    &&& remote.kind == local.kind
    &&& remote.required == local.required
    &&& remote.name == local.name
    &&& remote.description == local.description
    &&& match local.kind {
        ArgKind::Integer => remote.min_value == local.min_value && remote.max_value
            == local.max_value,
        ArgKind::User => true,
        ArgKind::String => local.choices.to_multiset() =~= remote.choices.to_multiset(),
        ArgKind::Other => false,
    }
}

/// The allowed values that a choice list declares: none for the empty text,
/// else its lines.
pub open spec fn declared_choices(list: Seq<char>) -> Seq<Seq<char>> {
    if list.len() == 0 {
        Seq::<Seq<char>>::empty()
    } else {
        split_lines(list)
    }
}

impl BaseArg {
    /// Whether the registered argument has this name, description and
    /// requiredness.
    pub open spec fn matches(&self, other: ArgumentView) -> bool {
        &&& other.required == self.required
        &&& other.name == self.name@
        &&& other.description == self.description@
    }

    /// The registered form of an argument of the given kind with this base
    /// and nothing else set.
    pub open spec fn payload(&self, kind: ArgKind) -> ArgumentView {
        ArgumentView {
            kind,
            name: self.name@,
            description: self.description@,
            required: self.required,
            min_value: RemoteBound::Missing,
            max_value: RemoteBound::Missing,
            choices: Seq::<Seq<char>>::empty(),
        }
    }

    /// Compares name, description and requiredness with a registered argument.
    pub fn eq(&self, other: &RemoteArgument) -> (r: bool)
        ensures
            r == self.matches(other@),
    {
        other.required == self.required && other.name.as_str().eq(self.name)
            && other.description.as_str().eq(self.description)
    }

    /// Builds the registered form of an argument of the given kind.
    pub fn to_arg(&self, kind: ArgKind) -> (r: RemoteArgument)
        ensures
            r@ == self.payload(kind),
    {
        let r = RemoteArgument {
            kind,
            name: String::from_str(self.name),
            description: String::from_str(self.description),
            required: self.required,
            min_value: RemoteBound::Missing,
            max_value: RemoteBound::Missing,
            choices: Vec::new(),
        };
        assert(string_views(r.choices@) =~= Seq::<Seq<char>>::empty());
        r
    }
}

impl View for IntArg {
    type V = ArgumentView;

    /// The registered form of this argument.
    open spec fn view(&self) -> ArgumentView {
        ArgumentView {
            min_value: bound_of(self.min),
            max_value: bound_of(self.max),
            ..self.base.payload(ArgKind::Integer)
        }
    }
}

impl IntArg {
    /// Compares this argument with a registered one: it must be an integer
    /// with the same base and the same bounds. A missing bound agrees only
    /// with a missing bound.
    pub fn eq(&self, other: &RemoteArgument) -> (r: bool)
        ensures
            r == argument_matches(self@, other@),
    {
        other.kind == ArgKind::Integer && is_bound(other.min_value, self.min) && is_bound(
            other.max_value,
            self.max,
        ) && self.base.eq(other)
    }

    /// The name under which the argument is registered.
    pub fn name(&self) -> (r: &'static str)
        ensures
            r@ == self.base.name@,
    {
        self.base.name
    }

    /// Builds the registered form of this argument.
    pub fn to_arg(&self) -> (r: RemoteArgument)
        ensures
            r@ == self@,
    {
        let mut option = self.base.to_arg(ArgKind::Integer);
        if let Some(min) = self.min {
            option.min_value = RemoteBound::Value(min);
        }
        if let Some(max) = self.max {
            option.max_value = RemoteBound::Value(max);
        }
        option
    }
}

/// Whether a registered bound is the registered form of a declared one: a
/// missing bound of a missing one, and a number of the same number.
pub fn is_bound(remote: RemoteBound, local: Option<u64>) -> (r: bool)
    ensures
        r == (remote == bound_of(local)),
{
    match (remote, local) {
        (RemoteBound::Missing, None) => true,
        (RemoteBound::Value(x), Some(y)) => x == y,
        _ => false,
    }
}

/// Whether two optional numbers are both missing or both the same number.
pub fn same_bound(a: Option<u64>, b: Option<u64>) -> (r: bool)
    ensures
        r == (a == b),
{
    match (a, b) {
        (None, None) => true,
        (Some(x), Some(y)) => x == y,
        _ => false,
    }
}

impl View for UserArg {
    type V = ArgumentView;

    /// The registered form of this argument.
    open spec fn view(&self) -> ArgumentView {
        self.base.payload(ArgKind::User)
    }
}

impl UserArg {
    /// Compares this argument with a registered one: it must be a user
    /// reference with the same base.
    pub fn eq(&self, other: &RemoteArgument) -> (r: bool)
        ensures
            r == argument_matches(self@, other@),
    {
        other.kind == ArgKind::User && self.base.eq(other)
    }

    /// The name under which the argument is registered.
    pub fn name(&self) -> (r: &'static str)
        ensures
            r@ == self.base.name@,
    {
        self.base.name
    }

    /// Builds the registered form of this argument.
    pub fn to_arg(&self) -> (r: RemoteArgument)
        ensures
            r@ == self@,
    {
        self.base.to_arg(ArgKind::User)
    }
}

impl View for StringArg {
    type V = ArgumentView;

    /// The registered form of this argument: every declared choice, in the
    /// declared order.
    open spec fn view(&self) -> ArgumentView {
        ArgumentView {
            choices: declared_choices(self.choices@),
            ..self.base.payload(ArgKind::String)
        }
    }
}

impl StringArg {

    /// The declared choices, in their order.
    pub fn gen_choices(&self) -> (r: Vec<&'static str>)
        ensures
            slice_views(r@) == declared_choices(self.choices@),
    {
        if self.choices.is_empty() {
            let r: Vec<&'static str> = Vec::new();
            assert(slice_views(r@) =~= Seq::<Seq<char>>::empty());
            r
        } else {
            lines(self.choices)
        }
    }

    /// Compares this argument with a registered one: it must be a text with
    /// the same base and the same choices. The order of the choices does not
    /// count; how often each occurs does.
    pub fn eq(&self, other: &RemoteArgument) -> (r: bool)
        ensures
            r == argument_matches(self@, other@),
    {
        if !(other.kind == ArgKind::String && self.base.eq(other)) {
            return false;
        }
        let new_choices = self.gen_choices();
        same_texts(&new_choices, &other.choices)
    }

    /// The name under which the argument is registered.
    pub fn name(&self) -> (r: &'static str)
        ensures
            r@ == self.base.name@,
    {
        self.base.name
    }

    /// Builds the registered form of this argument.
    pub fn to_arg(&self) -> (r: RemoteArgument)
        ensures
            r@ == self@,
    {
        let mut option = self.base.to_arg(ArgKind::String);
        let declared = self.gen_choices();
        let n = declared.len();
        let mut choices: Vec<String> = Vec::new();
        let mut i: usize = 0;
        while i < n
            invariant
                n == declared@.len(),
                i <= n,
                string_views(choices@) == slice_views(declared@).subrange(0, i as int),
            decreases n - i,
        {
            let ghost before = string_views(choices@);
            choices.push(String::from_str(declared[i]));
            proof {
                assert(string_views(choices@) =~= before.push(declared@[i as int]@));
                assert(slice_views(declared@).subrange(0, i as int + 1) =~= before.push(
                    declared@[i as int]@,
                ));
            }
            i += 1;
        }
        proof {
            assert(slice_views(declared@).subrange(0, n as int) =~= slice_views(declared@));
        }
        option.choices = choices;
        option
    }
}

/// One declared argument of a command.
#[derive(Debug, Clone)]
pub enum ArgumentSpec {
    /// An integer with optional bounds.
    Integer(IntArg),
    /// A reference to a user.
    EntityRef(UserArg),
    /// A text with a fixed list of choices.
    Choice(StringArg),
}

impl View for ArgumentSpec {
    type V = ArgumentView;

    /// The registered form of this argument.
    open spec fn view(&self) -> ArgumentView {
        match self {
            ArgumentSpec::Integer(a) => a@,
            ArgumentSpec::EntityRef(a) => a@,
            ArgumentSpec::Choice(a) => a@,
        }
    }
}

impl ArgumentSpec {
    /// The name under which the argument is registered.
    pub fn name(&self) -> (r: &'static str)
        ensures
            r@ == self@.name,
    {
        match self {
            ArgumentSpec::Integer(a) => a.name(),
            ArgumentSpec::EntityRef(a) => a.name(),
            ArgumentSpec::Choice(a) => a.name(),
        }
    }

    /// Compares this argument with a registered one, by the rule of its kind.
    pub fn eq(&self, other: &RemoteArgument) -> (r: bool)
        ensures
            r == argument_matches(self@, other@),
    {
        match self {
            ArgumentSpec::Integer(a) => a.eq(other),
            ArgumentSpec::EntityRef(a) => a.eq(other),
            ArgumentSpec::Choice(a) => a.eq(other),
        }
    }

    /// Builds the registered form of this argument.
    pub fn to_arg(&self) -> (r: RemoteArgument)
        ensures
            r@ == self@,
    {
        match self {
            ArgumentSpec::Integer(a) => a.to_arg(),
            ArgumentSpec::EntityRef(a) => a.to_arg(),
            ArgumentSpec::Choice(a) => a.to_arg(),
        }
    }
}

/// A declared argument agrees with its own registered form.
pub proof fn lemma_argument_matches_itself(arg: ArgumentSpec)
    ensures
        argument_matches(arg@, arg@),
{
}

/// Two declared arguments that differ only in the order of their choices
/// agree with exactly the same registered arguments, and a declared argument
/// agrees with a registered one whatever the order of the registered choices.
pub proof fn lemma_choice_order_is_irrelevant(
    first: ArgumentView,
    second: ArgumentView,
    remote: ArgumentView,
    reordered: ArgumentView,
)
    requires
        second == (ArgumentView { choices: second.choices, ..first }),
        first.choices.to_multiset() =~= second.choices.to_multiset(),
        reordered == (ArgumentView { choices: reordered.choices, ..remote }),
        remote.choices.to_multiset() =~= reordered.choices.to_multiset(),
    ensures
        argument_matches(first, remote) == argument_matches(second, remote),
        argument_matches(first, remote) == argument_matches(first, reordered),
{
}

} // verus!
