//! Commands: a handler with the parameters it declares, and the metadata
//! that describes it.
use crate::framework::grammar::{ParseError, ParseFailure};
use crate::framework::parameters::{
    value_views, ParamKind, ParameterMeta, ParameterMetaView, Value, ValueView,
};
use crate::framework::text::{is_rest_of, join, joined, lemma_rest_of_rest, views};
use vstd::prelude::*;
use vstd::string::*;

verus! {

/// What the help text says of a command.
#[derive(Debug, PartialEq, Eq)]
pub struct CommandMeta {
    pub description: Option<String>,
    /// The declared parameters, in order.
    pub params: Vec<ParameterMeta>,
}

/// The mathematical content of a [`CommandMeta`].
pub struct CommandMetaView {
    pub description: Option<Seq<char>>,
    pub params: Seq<ParameterMetaView>,
}

/// The content of an optional piece of text.
pub open spec fn text_view(text: Option<String>) -> Option<Seq<char>> {
    match text {
        Some(s) => Some(s@),
        None => None,
    }
}

/// The contents of a list of parameter descriptions.
pub open spec fn meta_views(params: Seq<ParameterMeta>) -> Seq<ParameterMetaView> {
    Seq::new(params.len(), |i: int| params[i]@)
}

/// The descriptions of a list of parameter kinds, one for each, in order.
pub open spec fn metas_of(kinds: Seq<ParamKind>) -> Seq<ParameterMetaView> {
    Seq::new(
        kinds.len(),
        |i: int| ParameterMetaView { info: kinds[i].info(), visible: kinds[i].visible() },
    )
}

/// The labels of the visible parameters among `params`, in order.
pub open spec fn visible_infos(params: Seq<ParameterMetaView>) -> Seq<Seq<char>>
    decreases params.len(),
{
    if params.len() == 0 {
        Seq::empty()
    } else if params.last().visible {
        visible_infos(params.drop_last()).push(params.last().info)
    } else {
        visible_infos(params.drop_last())
    }
}

impl View for CommandMeta {
    type V = CommandMetaView;

    open spec fn view(&self) -> CommandMetaView {
        CommandMetaView {
            description: text_view(self.description),
            params: meta_views(self.params@),
        }
    }
}

/// A copy of an optional piece of text.
pub fn clone_text(text: &Option<String>) -> (copy: Option<String>)
    ensures
        text_view(copy) == text_view(*text),
{
    match text {
        Some(s) => Some(s.clone()),
        None => None,
    }
}

impl Clone for CommandMeta {
    fn clone(&self) -> (m: Self)
        ensures
            m@ == self@,
    {
        let mut params: Vec<ParameterMeta> = Vec::new();
        let mut i: usize = 0;
        while i < self.params.len()
            invariant
                i <= self.params@.len(),
                meta_views(params@) == meta_views(self.params@).take(i as int),
            decreases self.params@.len() - i,
        {
            let ghost before = meta_views(params@);
            params.push(self.params[i].clone());
            assert(meta_views(params@) == before.push(self.params@[i as int]@));
            i += 1;
        }
        assert(meta_views(self.params@).take(self.params@.len() as int) == meta_views(
            self.params@,
        ));
        CommandMeta { description: clone_text(&self.description), params }
    }
}

impl CommandMeta {
    /// The labels of the parameters that the caller supplies, in order.
    pub fn visible_params(&self) -> (labels: Vec<&str>)
        ensures
            views(labels@) == visible_infos(self@.params),
    {
        let mut labels: Vec<&str> = Vec::new();
        let mut i: usize = 0;
        while i < self.params.len()
            invariant
                i <= self.params@.len(),
                views(labels@) == visible_infos(self@.params.take(i as int)),
            decreases self.params@.len() - i,
        {
            proof {
                let longer = self@.params.take(i + 1);
                assert(longer.drop_last() == self@.params.take(i as int));
                assert(longer.last() == self.params@[i as int]@);
            }
            if self.params[i].visible {
                let ghost before = labels@;
                labels.push(self.params[i].info.as_str());
                assert(views(labels@) == views(before).push(self.params@[i as int].info@));
            }
            i += 1;
        }
        proof {
            assert(self@.params.take(self.params@.len() as int) == self@.params);
        }
        labels
    }

    /// The labels of the visible parameters, separated by a comma and a
    /// space.
    pub fn format_params(&self) -> (text: String)
        ensures
            text@ == joined(visible_infos(self@.params), ", "@),
    {
        let labels = self.visible_params();
        join(&labels, ", ")
    }
}

/// What binding a command's parameters to `input` gives: each parameter is
/// read in turn from what the one before it left. The first failure is the
/// failure of the whole; otherwise the values come in the order of the
/// parameters, with the input that the last one left.
pub open spec fn bound(params: Seq<ParamKind>, input: Seq<char>) -> Result<
    (Seq<char>, Seq<ValueView>),
    ParseFailure,
>
    decreases params.len(),
{
    if params.len() == 0 {
        Ok((input, Seq::empty()))
    } else {
        match params[0].parsed(input) {
            Err(failure) => Err(failure),
            Ok((rest, value)) => match bound(params.skip(1), rest) {
                Err(failure) => Err(failure),
                Ok((end, values)) => Ok((end, seq![value] + values)),
            },
        }
    }
}

/// `outcome` with `values` in front of the values it holds.
pub open spec fn after_values(
    values: Seq<ValueView>,
    outcome: Result<(Seq<char>, Seq<ValueView>), ParseFailure>,
) -> Result<(Seq<char>, Seq<ValueView>), ParseFailure> {
    match outcome {
        Ok((end, more)) => Ok((end, values + more)),
        Err(failure) => Err(failure),
    }
}

/// Binds the parameters `params` to the front of `input`.
pub fn bind<'a>(params: &Vec<ParamKind>, input: &'a str) -> (r: Result<
    (&'a str, Vec<Value>),
    ParseError,
>)
    ensures
        match bound(params@, input@) {
            Ok((rest, values)) => r matches Ok((t, v)) && t@ == rest && value_views(v@) == values,
            Err(failure) => r matches Err(e) && e@ == failure,
        },
{
    let mut values: Vec<Value> = Vec::new();
    let mut rest = input;
    let mut i: usize = 0;
    proof {
        assert(params@.skip(0) == params@);
        assert(value_views(values@) + Seq::<ValueView>::empty() == value_views(values@));
        match bound(params@, input@) {
            Ok((end, more)) => {
                assert(Seq::<ValueView>::empty() + more == more);
            },
            Err(_) => {},
        }
    }
    while i < params.len()
        invariant
            i <= params@.len(),
            bound(params@, input@) == after_values(
                value_views(values@),
                bound(params@.skip(i as int), rest@),
            ),
        decreases params@.len() - i,
    {
        let ghost tail = params@.skip(i as int);
        proof {
            assert(tail[0] == params@[i as int]);
            assert(tail.skip(1) == params@.skip(i + 1));
        }
        match params[i].parse(rest) {
            Err(e) => {
                return Err(e);
            },
            Ok((left, value)) => {
                let ghost before = value_views(values@);
                values.push(value);
                proof {
                    assert(value_views(values@) == before + seq![value@]);
                    match bound(params@.skip(i + 1), left@) {
                        Ok((end, more)) => {
                            assert(before + (seq![value@] + more) == (before + seq![value@])
                                + more);
                        },
                        Err(_) => {},
                    }
                }
                rest = left;
            },
        }
        i += 1;
    }
    proof {
        assert(value_views(values@) + Seq::<ValueView>::empty() == value_views(values@));
    }
    Ok((rest, values))
}

/// A command: a handler, the parameters it declares and the metadata that
/// describes it. The handler is whatever the application runs once the
/// parameters are bound; the framework carries it and never looks inside.
#[derive(Debug)]
pub struct ErasedCommand<H> {
    pub meta: CommandMeta,
    /// The declared parameters, in order.
    pub params: Vec<ParamKind>,
    pub handler: H,
}

impl<H> ErasedCommand<H> {
    /// A command with the given parameters and handler. Its metadata holds
    /// the description of each parameter, in the order of declaration.
    pub fn new(params: Vec<ParamKind>, handler: H, description: Option<String>) -> (c: Self)
        ensures
            c.params == params,
            c.handler == handler,
            c.meta.description == description,
            c.meta@.params == metas_of(params@),
    {
        let mut metas: Vec<ParameterMeta> = Vec::new();
        let mut i: usize = 0;
        while i < params.len()
            invariant
                i <= params@.len(),
                meta_views(metas@) == metas_of(params@.take(i as int)),
            decreases params@.len() - i,
        {
            let ghost before = meta_views(metas@);
            metas.push(params[i].meta());
            proof {
                assert(meta_views(metas@) == before.push(metas@[i as int]@));
                assert(metas_of(params@.take(i + 1)) == metas_of(params@.take(i as int)).push(
                    metas@[i as int]@,
                ));
            }
            i += 1;
        }
        proof {
            assert(params@.take(params@.len() as int) == params@);
        }
        ErasedCommand { meta: CommandMeta { description, params: metas }, params, handler }
    }

    /// The command with `description` as its description.
    pub fn with_description(self, description: &str) -> (c: Self)
        ensures
            c.meta.description matches Some(d) && d@ == description@,
            c.meta.params == self.meta.params,
            c.params == self.params,
            c.handler == self.handler,
    {
        let mut c = self;
        c.meta.description = Some(String::from_str(description));
        c
    }

    /// Binds the command's parameters to `input`: reads each in turn from
    /// what the one before it left. Nothing is bound unless all are.
    pub fn bind<'a>(&self, input: &'a str) -> (r: Result<(&'a str, Vec<Value>), ParseError>)
        ensures
            match bound(self.params@, input@) {
                Ok((rest, values)) => r matches Ok((t, v)) && t@ == rest && value_views(v@)
                    == values,
                Err(failure) => r matches Err(e) && e@ == failure,
            },
    {
        bind(&self.params, input)
    }
}

/// A command without a description.
pub fn cmd<H>(params: Vec<ParamKind>, handler: H) -> (c: ErasedCommand<H>)
    ensures
        c.params == params,
        c.handler == handler,
        c.meta.description is None,
        c.meta@.params == metas_of(params@),
{
    ErasedCommand::new(params, handler, None)
}

/// No parameter but the last takes all of the input.
pub open spec fn remainder_last(params: Seq<ParamKind>) -> bool {
    forall|i: int| 0 <= i < params.len() - 1 ==> !(#[trigger] params[i]).takes_all()
}

/// Whether the parameters are declared in an order that can work: a
/// parameter that takes all of the input is to be the last.
pub fn remainder_is_last(params: &Vec<ParamKind>) -> (b: bool)
    ensures
        b == remainder_last(params@),
{
    let mut i: usize = 0;
    while i < params.len() && i < params.len() - 1
        invariant
            i <= params@.len(),
            forall|j: int| 0 <= j < i ==> !(#[trigger] params@[j]).takes_all(),
        decreases params@.len() - i,
    {
        if params[i].is_taking_all() {
            return false;
        }
        i += 1;
    }
    true
}

/// From an empty input, parameters of which one takes some input cannot be
/// bound.
pub proof fn lemma_nothing_left_to_bind(params: Seq<ParamKind>, input: Seq<char>, j: int)
    requires
        input.len() == 0,
        0 <= j < params.len(),
        params[j].consuming(),
    ensures
        bound(params, input) is Err,
    decreases params.len(),
{
    params[0].lemma_nothing_comes_of_nothing(input);
    if j == 0 {
        params[0].lemma_consuming_shrinks(input);
    } else {
        match params[0].parsed(input) {
            Ok((rest, _)) => {
                assert(params.skip(1)[j - 1] == params[j]);
                lemma_nothing_left_to_bind(params.skip(1), rest, j - 1);
            },
            Err(_) => {},
        }
    }
}

/// Why the remainder is declared last: a command that declares a number or
/// a piece of text after a remainder can never be bound, whatever the input.
pub proof fn lemma_remainder_is_last(params: Seq<ParamKind>, input: Seq<char>, i: int, j: int)
    requires
        0 <= i < j < params.len(),
        params[i].takes_all(),
        params[j].consuming(),
    ensures
        bound(params, input) is Err,
    decreases params.len(),
{
    match params[0].parsed(input) {
        Ok((rest, _)) => {
            assert(params.skip(1)[j - 1] == params[j]);
            if i == 0 {
                params[0].lemma_takes_all_leaves_nothing(input);
                lemma_nothing_left_to_bind(params.skip(1), rest, j - 1);
            } else {
                assert(params.skip(1)[i - 1] == params[i]);
                lemma_remainder_is_last(params.skip(1), rest, i - 1, j - 1);
            }
        },
        Err(_) => {},
    }
}

/// What binding leaves is left of the input: each parameter reads from the
/// front of what the one before it left.
pub proof fn lemma_binding_leaves_a_rest(params: Seq<ParamKind>, input: Seq<char>)
    ensures
        bound(params, input) matches Ok((rest, _)) ==> is_rest_of(rest, input),
    decreases params.len(),
{
    if params.len() == 0 {
        assert(input.skip(0) == input);
    } else {
        params[0].lemma_leaves_a_rest(input);
        match params[0].parsed(input) {
            Ok((rest, _)) => {
                lemma_binding_leaves_a_rest(params.skip(1), rest);
                match bound(params.skip(1), rest) {
                    Ok((end, _)) => {
                        lemma_rest_of_rest(end, rest, input);
                    },
                    Err(_) => {},
                }
            },
            Err(_) => {},
        }
    }
}

} // verus!
