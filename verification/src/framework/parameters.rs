//! Parameters: what a command declares of each argument, and how a declared
//! argument is read from the input.
use crate::framework::grammar::{
    lemma_arguments_leave_a_rest, lemma_arguments_shrink, parse_signed, parse_text,
    parse_unsigned, signed_argument, text_argument, unsigned_argument, ParseError, ParseFailure,
    Parsed, Width,
};
use crate::framework::text::{is_rest_of, lemma_rest_of_rest, str_concat};
use vstd::prelude::*;
use vstd::string::*;

verus! {

/// One parameter as the help text shows it.
#[derive(Debug, PartialEq, Eq)]
pub struct ParameterMeta {
    /// The label of the parameter's type.
    pub info: String,
    /// Whether the caller supplies the argument; parameters that the
    /// framework fills in are not shown.
    pub visible: bool,
}

/// The mathematical content of a [`ParameterMeta`].
pub struct ParameterMetaView {
    pub info: Seq<char>,
    pub visible: bool,
}

impl View for ParameterMeta {
    type V = ParameterMetaView;

    open spec fn view(&self) -> ParameterMetaView {
        ParameterMetaView { info: self.info@, visible: self.visible }
    }
}

impl Clone for ParameterMeta {
    fn clone(&self) -> (m: Self)
        ensures
            m@ == self@,
    {
        ParameterMeta { info: self.info.clone(), visible: self.visible }
    }
}

/// The kinds of parameter that a command can declare.
#[derive(Debug, PartialEq, Eq)]
pub enum ParamKind {
    /// An unsigned number of the given width.
    Unsigned(Width),
    /// A signed number of the given width.
    Signed(Width),
    /// A quoted string or a word.
    Text,
    /// All that is left of the line, as it stands.
    Remainder,
    /// Another kind under a label; the label shows in the help text only.
    Named(String, Box<ParamKind>),
    /// Another kind, as often as it can be read.
    Repeated(Box<ParamKind>),
    /// A value that the invocation's context supplies; it reads no input.
    Context(String),
}

/// A bound argument.
#[derive(Debug, PartialEq, Eq)]
pub enum Value {
    Unsigned(u64),
    Signed(i64),
    Text(String),
    List(Vec<Value>),
    /// The place of a value that the context supplies.
    Context,
}

/// The mathematical content of a [`Value`].
pub enum ValueView {
    Unsigned(u64),
    Signed(i64),
    Text(Seq<char>),
    List(Seq<ValueView>),
    Context,
}

/// The content of a value; the content of a list is that of its items, in
/// order.
pub open spec fn value_view(value: Value) -> ValueView
    decreases value,
{
    match value {
        Value::Unsigned(n) => ValueView::Unsigned(n),
        Value::Signed(n) => ValueView::Signed(n),
        Value::Text(s) => ValueView::Text(s@),
        Value::List(items) => ValueView::List(
            Seq::new(
                items@.len(),
                |i: int|
                    if 0 <= i < items@.len() {
                        value_view(items@[i])
                    } else {
                        ValueView::Context
                    },
            ),
        ),
        Value::Context => ValueView::Context,
    }
}

impl View for Value {
    type V = ValueView;

    open spec fn view(&self) -> ValueView {
        value_view(*self)
    }
}

impl Value {
    /// The number, where this is an unsigned number.
    pub fn as_unsigned(&self) -> (r: Option<u64>)
        ensures
            r == match self {
                Value::Unsigned(n) => Some(*n),
                _ => None,
            },
    {
        match self {
            Value::Unsigned(n) => Some(*n),
            _ => None,
        }
    }

    /// The number, where this is a signed number.
    pub fn as_signed(&self) -> (r: Option<i64>)
        ensures
            r == match self {
                Value::Signed(n) => Some(*n),
                _ => None,
            },
    {
        match self {
            Value::Signed(n) => Some(*n),
            _ => None,
        }
    }

    /// The text, where this is text.
    pub fn as_text(&self) -> (r: Option<&str>)
        ensures
            match self {
                Value::Text(s) => r matches Some(t) && t@ == s@,
                _ => r is None,
            },
    {
        match self {
            Value::Text(s) => Some(s.as_str()),
            _ => None,
        }
    }

    /// The items, where this is a list.
    pub fn as_list(&self) -> (r: Option<&Vec<Value>>)
        ensures
            match self {
                Value::List(items) => r == Some(items),
                _ => r is None,
            },
    {
        match self {
            Value::List(items) => Some(items),
            _ => None,
        }
    }
}

/// The contents of a list of values.
pub open spec fn value_views(items: Seq<Value>) -> Seq<ValueView> {
    Seq::new(items.len(), |i: int| items[i]@)
}

/// A list holds the contents of its items, in order.
pub proof fn lemma_list_view(items: Vec<Value>)
    ensures
        Value::List(items)@ == ValueView::List(value_views(items@)),
{
    let list = Value::List(items);
    assert(list@ matches ValueView::List(s) && s =~= value_views(items@));
}

impl ParamKind {
    /// The label of the kind, as the help text shows it.
    pub open spec fn info(self) -> Seq<char>
        decreases self,
    {
        match self {
            ParamKind::Unsigned(Width::W8) => "u8"@,
            ParamKind::Unsigned(Width::W16) => "u16"@,
            ParamKind::Unsigned(Width::W32) => "u32"@,
            ParamKind::Unsigned(Width::W64) => "u64"@,
            ParamKind::Signed(Width::W8) => "i8"@,
            ParamKind::Signed(Width::W16) => "i16"@,
            ParamKind::Signed(Width::W32) => "i32"@,
            ParamKind::Signed(Width::W64) => "i64"@,
            ParamKind::Text => "String"@,
            ParamKind::Remainder => "String*"@,
            ParamKind::Named(label, inner) => label@ + ": "@ + inner.info(),
            ParamKind::Repeated(inner) => "Vec<"@ + inner.info() + ">"@,
            ParamKind::Context(label) => label@,
        }
    }

    /// Whether the caller supplies the argument.
    pub open spec fn visible(self) -> bool
        decreases self,
    {
        match self {
            ParamKind::Named(_, inner) => inner.visible(),
            ParamKind::Repeated(inner) => inner.visible(),
            ParamKind::Context(_) => false,
            _ => true,
        }
    }

    /// What reading an argument of this kind from `input` gives.
    ///
    /// A repetition reads its element until that fails or takes nothing.
    pub open spec fn parsed(self, input: Seq<char>) -> Parsed<ValueView>
        decreases self, input.len(), 0nat,
    {
        match self {
            ParamKind::Unsigned(width) => match unsigned_argument(input, width.unsigned_max()) {
                Ok((rest, n)) => Ok((rest, ValueView::Unsigned(n as u64))),
                Err(failure) => Err(failure),
            },
            ParamKind::Signed(width) => match signed_argument(input, width.signed_max()) {
                Ok((rest, n)) => Ok((rest, ValueView::Signed(n as i64))),
                Err(failure) => Err(failure),
            },
            ParamKind::Text => match text_argument(input) {
                Ok((rest, s)) => Ok((rest, ValueView::Text(s))),
                Err(failure) => Err(failure),
            },
            ParamKind::Remainder => Ok((Seq::empty(), ValueView::Text(input))),
            ParamKind::Named(_, inner) => inner.parsed(input),
            ParamKind::Repeated(inner) => {
                let (rest, items) = inner.parsed_many(input);
                Ok((rest, ValueView::List(items)))
            },
            ParamKind::Context(_) => Ok((input, ValueView::Context)),
        }
    }

    /// What reading arguments of this kind from `input`, as often as can be,
    /// gives: the input that is left and the values in order.
    pub open spec fn parsed_many(self, input: Seq<char>) -> (Seq<char>, Seq<ValueView>)
        decreases self, input.len(), 1nat,
    {
        match self.parsed(input) {
            Ok((rest, value)) => if rest.len() < input.len() {
                let (end, more) = self.parsed_many(rest);
                (end, seq![value] + more)
            } else {
                (input, Seq::empty())
            },
            Err(_) => (input, Seq::empty()),
        }
    }

    /// The label of the kind, as the help text shows it.
    pub fn info_text(&self) -> (text: String)
        ensures
            text@ == self.info(),
        decreases self,
    {
        match self {
            ParamKind::Unsigned(Width::W8) => String::from_str("u8"),
            ParamKind::Unsigned(Width::W16) => String::from_str("u16"),
            ParamKind::Unsigned(Width::W32) => String::from_str("u32"),
            ParamKind::Unsigned(Width::W64) => String::from_str("u64"),
            ParamKind::Signed(Width::W8) => String::from_str("i8"),
            ParamKind::Signed(Width::W16) => String::from_str("i16"),
            ParamKind::Signed(Width::W32) => String::from_str("i32"),
            ParamKind::Signed(Width::W64) => String::from_str("i64"),
            ParamKind::Text => String::from_str("String"),
            ParamKind::Remainder => String::from_str("String*"),
            ParamKind::Named(label, inner) => {
                let inner_info = inner.info_text();
                str_concat(label.as_str(), ": ").concat(inner_info.as_str())
            },
            ParamKind::Repeated(inner) => {
                let inner_info = inner.info_text();
                str_concat("Vec<", inner_info.as_str()).concat(">")
            },
            ParamKind::Context(label) => label.clone(),
        }
    }

    /// Whether the caller supplies the argument.
    pub fn is_visible(&self) -> (b: bool)
        ensures
            b == self.visible(),
        decreases self,
    {
        match self {
            ParamKind::Named(_, inner) => inner.is_visible(),
            ParamKind::Repeated(inner) => inner.is_visible(),
            ParamKind::Context(_) => false,
            _ => true,
        }
    }

    /// The parameter as the help text shows it.
    pub fn meta(&self) -> (m: ParameterMeta)
        ensures
            m@ == (ParameterMetaView { info: self.info(), visible: self.visible() }),
    {
        ParameterMeta { info: self.info_text(), visible: self.is_visible() }
    }

    /// Reads one argument of this kind from the front of `input`.
    pub fn parse<'a>(&self, input: &'a str) -> (r: Result<(&'a str, Value), ParseError>)
        ensures
            match self.parsed(input@) {
                Ok((rest, value)) => r matches Ok((t, v)) && t@ == rest && v@ == value,
                Err(failure) => r matches Err(e) && e@ == failure,
            },
        decreases self, input@.len(), 0nat,
    {
        match self {
            ParamKind::Unsigned(width) => match parse_unsigned(input, *width) {
                Ok((rest, n)) => Ok((rest, Value::Unsigned(n))),
                Err(e) => Err(e),
            },
            ParamKind::Signed(width) => match parse_signed(input, *width) {
                Ok((rest, n)) => Ok((rest, Value::Signed(n))),
                Err(e) => Err(e),
            },
            ParamKind::Text => match parse_text(input) {
                Ok((rest, s)) => Ok((rest, Value::Text(s))),
                Err(e) => Err(e),
            },
            ParamKind::Remainder => {
                let n = input.unicode_len();
                Ok((input.substring_char(n, n), Value::Text(String::from_str(input))))
            },
            ParamKind::Named(_, inner) => inner.parse(input),
            ParamKind::Repeated(inner) => {
                let mut items: Vec<Value> = Vec::new();
                let rest = inner.parse_many(input, &mut items);
                assert(value_views(items@) == inner.parsed_many(input@).1);
                proof {
                    lemma_list_view(items);
                }
                Ok((rest, Value::List(items)))
            },
            ParamKind::Context(_) => Ok((input, Value::Context)),
        }
    }

    /// Reads arguments of this kind from the front of `input` for as long as
    /// one can be read and takes some of the input; appends them to `items`
    /// and returns the input that is left.
    pub fn parse_many<'a>(&self, input: &'a str, items: &mut Vec<Value>) -> (rest: &'a str)
        ensures
            rest@ == self.parsed_many(input@).0,
            value_views(final(items)@) == value_views(old(items)@) + self.parsed_many(input@).1,
        decreases self, input@.len(), 1nat,
    {
        match self.parse(input) {
            Ok((rest, value)) => {
                if rest.unicode_len() < input.unicode_len() {
                    let ghost before = items@;
                    items.push(value);
                    let ghost between = items@;
                    let end = self.parse_many(rest, items);
                    proof {
                        assert(value_views(between) == value_views(before) + seq![value@]);
                        assert(value_views(items@) == value_views(before) + (seq![value@]
                            + self.parsed_many(rest@).1));
                    }
                    end
                } else {
                    assert(value_views(items@) == value_views(items@) + Seq::<ValueView>::empty());
                    input
                }
            },
            Err(_) => {
                assert(value_views(items@) == value_views(items@) + Seq::<ValueView>::empty());
                input
            },
        }
    }
}

impl ParamKind {
    /// Whether reading an argument of this kind always takes some of the
    /// input: numbers and text do, under a label too.
    pub open spec fn consuming(self) -> bool
        decreases self,
    {
        match self {
            ParamKind::Unsigned(_) => true,
            ParamKind::Signed(_) => true,
            ParamKind::Text => true,
            ParamKind::Named(_, inner) => inner.consuming(),
            _ => false,
        }
    }

    /// The remainder takes all of the input, white space included, and
    /// leaves nothing.
    pub proof fn lemma_remainder_takes_all(input: Seq<char>)
        ensures
            ParamKind::Remainder.parsed(input) == Ok::<_, ParseFailure>(
                (Seq::<char>::empty(), ValueView::Text(input)),
            ),
    {
    }

    /// A label changes nothing of what is read.
    pub proof fn lemma_label_is_transparent(label: String, inner: ParamKind, input: Seq<char>)
        ensures
            ParamKind::Named(label, Box::new(inner)).parsed(input) == inner.parsed(input),
    {
    }

    /// A parameter that the context supplies reads nothing of the input.
    pub proof fn lemma_context_reads_nothing(label: String, input: Seq<char>)
        ensures
            ParamKind::Context(label).parsed(input) == Ok::<_, ParseFailure>(
                (input, ValueView::Context),
            ),
    {
    }

    /// What an argument of a consuming kind leaves is shorter than the
    /// input.
    pub proof fn lemma_consuming_shrinks(self, input: Seq<char>)
        requires
            self.consuming(),
        ensures
            self.parsed(input) matches Ok((rest, _)) ==> rest.len() < input.len(),
        decreases self,
    {
        match self {
            ParamKind::Unsigned(width) => {
                lemma_arguments_shrink(input, width.unsigned_max());
            },
            ParamKind::Signed(width) => {
                lemma_arguments_shrink(input, width.signed_max());
            },
            ParamKind::Text => {
                lemma_arguments_shrink(input, 0);
            },
            ParamKind::Named(_, inner) => {
                inner.lemma_consuming_shrinks(input);
            },
            _ => {},
        }
    }

    /// A repetition never fails, and zero arguments are a result.
    pub proof fn lemma_repetition_succeeds(inner: ParamKind, input: Seq<char>)
        ensures
            ParamKind::Repeated(Box::new(inner)).parsed(input) is Ok,
    {
    }

    /// A repetition of a consuming kind goes on until an argument cannot be
    /// read: another one cannot be read from what it leaves.
    pub proof fn lemma_repetition_ends_at_failure(self, input: Seq<char>)
        requires
            self.consuming(),
        ensures
            self.parsed(self.parsed_many(input).0) is Err,
        decreases input.len(),
    {
        self.lemma_consuming_shrinks(input);
        match self.parsed(input) {
            Ok((rest, _)) => {
                self.lemma_repetition_ends_at_failure(rest);
            },
            Err(_) => {},
        }
    }
}

impl ParamKind {
    /// Whether an argument of this kind takes all of the input: the
    /// remainder does, under a label too.
    pub open spec fn takes_all(self) -> bool
        decreases self,
    {
        match self {
            ParamKind::Remainder => true,
            ParamKind::Named(_, inner) => inner.takes_all(),
            _ => false,
        }
    }

    /// Whether an argument of this kind takes all of the input.
    pub fn is_taking_all(&self) -> (b: bool)
        ensures
            b == self.takes_all(),
        decreases self,
    {
        match self {
            ParamKind::Remainder => true,
            ParamKind::Named(_, inner) => inner.is_taking_all(),
            _ => false,
        }
    }

    /// An argument of a kind that takes all leaves nothing.
    pub proof fn lemma_takes_all_leaves_nothing(self, input: Seq<char>)
        requires
            self.takes_all(),
        ensures
            self.parsed(input) matches Ok((rest, _)) && rest.len() == 0,
        decreases self,
    {
        match self {
            ParamKind::Named(_, inner) => {
                inner.lemma_takes_all_leaves_nothing(input);
            },
            _ => {},
        }
    }

    /// From an empty input an argument can only leave an empty input.
    pub proof fn lemma_nothing_comes_of_nothing(self, input: Seq<char>)
        requires
            input.len() == 0,
        ensures
            self.parsed(input) matches Ok((rest, _)) ==> rest.len() == 0,
        decreases self,
    {
        match self {
            ParamKind::Unsigned(width) => {
                lemma_arguments_shrink(input, width.unsigned_max());
            },
            ParamKind::Signed(width) => {
                lemma_arguments_shrink(input, width.signed_max());
            },
            ParamKind::Text => {
                lemma_arguments_shrink(input, 0);
            },
            ParamKind::Named(_, inner) => {
                inner.lemma_nothing_comes_of_nothing(input);
            },
            ParamKind::Repeated(inner) => {
                assert(inner.parsed_many(input).0 == input);
            },
            _ => {},
        }
    }
}

impl ParamKind {
    /// What an argument leaves is left of the input, whatever its kind; so
    /// is what arguments of one kind, read one after another, leave.
    pub proof fn lemma_leaves_a_rest(self, input: Seq<char>)
        ensures
            self.parsed(input) matches Ok((rest, _)) ==> is_rest_of(rest, input),
            is_rest_of(self.parsed_many(input).0, input),
        decreases self, input.len(),
    {
        assert(input.skip(0) == input);
        assert(input.skip(input.len() as int) == Seq::<char>::empty());
        match self {
            ParamKind::Unsigned(width) => {
                lemma_arguments_leave_a_rest(input, width.unsigned_max());
            },
            ParamKind::Signed(width) => {
                lemma_arguments_leave_a_rest(input, width.signed_max());
            },
            ParamKind::Text => {
                lemma_arguments_leave_a_rest(input, 0);
            },
            ParamKind::Named(_, inner) => {
                inner.lemma_leaves_a_rest(input);
            },
            ParamKind::Repeated(inner) => {
                inner.lemma_leaves_a_rest(input);
            },
            _ => {},
        }
        match self.parsed(input) {
            Ok((rest, _)) => {
                if rest.len() < input.len() {
                    self.lemma_leaves_a_rest(rest);
                    lemma_rest_of_rest(self.parsed_many(rest).0, rest, input);
                }
            },
            Err(_) => {},
        }
    }
}

} // verus!
