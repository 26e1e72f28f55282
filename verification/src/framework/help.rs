//! What the help command reports of a path in the command tree.
use crate::framework::commands::{text_view, visible_infos, CommandMeta};
use crate::framework::groups::{GroupMeta, GroupOrCommandMeta, GroupOrCommandMetaRef};
use crate::framework::text::{join, joined, views};
use vstd::prelude::*;
use vstd::string::*;

verus! {

/// What the help command says of the command or group at a path.
#[derive(Debug, PartialEq, Eq)]
pub enum HelpReport<'a> {
    /// The path leads to a command.
    Command {
        /// The path as it was asked for, its names separated by spaces.
        name: String,
        /// The labels of the parameters that the caller supplies.
        params: Vec<&'a str>,
        description: Option<&'a str>,
    },
    /// The path leads to a group.
    Group {
        /// The path as it was asked for, its names separated by spaces.
        name: String,
        /// The names of the group's children, in the order of registration.
        subcommands: Vec<&'a str>,
        /// The labels of the fallback's visible parameters, where the group
        /// has a fallback.
        fallback: Option<Vec<&'a str>>,
        description: Option<&'a str>,
    },
    /// The path leaves the tree: a name in it is not known.
    NotFound {
        /// The path as it was asked for, its names separated by spaces.
        name: String,
        /// The names that are known, separated by spaces: the path of the
        /// group in which the next name was not found.
        within: String,
    },
}

/// The mathematical content of a [`HelpReport`].
pub enum HelpReportView {
    Command { name: Seq<char>, params: Seq<Seq<char>>, description: Option<Seq<char>> },
    Group {
        name: Seq<char>,
        subcommands: Seq<Seq<char>>,
        fallback: Option<Seq<Seq<char>>>,
        description: Option<Seq<char>>,
    },
    NotFound { name: Seq<char>, within: Seq<char> },
}

/// The content of an optional string slice.
pub open spec fn slice_view(text: Option<&str>) -> Option<Seq<char>> {
    match text {
        Some(s) => Some(s@),
        None => None,
    }
}

impl<'a> View for HelpReport<'a> {
    type V = HelpReportView;

    open spec fn view(&self) -> HelpReportView {
        match self {
            HelpReport::Command { name, params, description } => HelpReportView::Command {
                name: name@,
                params: views(params@),
                description: slice_view(*description),
            },
            HelpReport::Group {
                name,
                subcommands,
                fallback,
                description,
            } => HelpReportView::Group {
                name: name@,
                subcommands: views(subcommands@),
                fallback: match fallback {
                    Some(labels) => Some(views(labels@)),
                    None => None,
                },
                description: slice_view(*description),
            },
            HelpReport::NotFound { name, within } => HelpReportView::NotFound {
                name: name@,
                within: within@,
            },
        }
    }
}

/// The names of a group's children, in order.
pub open spec fn names_of(entries: Seq<(String, GroupOrCommandMeta)>) -> Seq<Seq<char>> {
    Seq::new(entries.len(), |i: int| entries[i].0@)
}

/// The labels of a fallback's visible parameters.
pub open spec fn fallback_infos(fallback: Option<CommandMeta>) -> Option<Seq<Seq<char>>> {
    match fallback {
        Some(c) => Some(visible_infos(c@.params)),
        None => None,
    }
}

/// What is reported of a command or group, asked for under `name`.
pub open spec fn described(thing: GroupOrCommandMeta, name: Seq<char>) -> HelpReportView {
    match thing {
        GroupOrCommandMeta::Command(c) => HelpReportView::Command {
            name,
            params: visible_infos(c@.params),
            description: text_view(c.description),
        },
        GroupOrCommandMeta::Group(g) => HelpReportView::Group {
            name,
            subcommands: names_of(g.inner@),
            fallback: fallback_infos(g.fallback),
            description: text_view(g.description),
        },
    }
}

/// What is reported of the path `path` below `root`.
///
/// A path that leads to a command is answered with the command, and names
/// after the command's are not looked at. A path that leads to a group is
/// answered with the group. A path with a name that is not known in the
/// group it has reached is answered with "not found", and with the path of
/// that group.
pub open spec fn reported(root: GroupMeta, path: Seq<Seq<char>>) -> HelpReportView {
    let thing = root.thing_at(path);
    let known = root.matched(path) as int;
    if thing is Group && known < path.len() {
        HelpReportView::NotFound {
            name: joined(path, " "@),
            within: joined(path.take(known), " "@),
        }
    } else {
        described(thing, joined(path, " "@))
    }
}

/// A borrowed view of an optional piece of text.
fn borrow_text<'a>(text: &'a Option<String>) -> (slice: Option<&'a str>)
    ensures
        slice_view(slice) == text_view(*text),
{
    match text {
        Some(s) => Some(s.as_str()),
        None => None,
    }
}

/// The names of `path` up to `end`, separated by spaces.
fn path_name(path: &[&str], end: usize) -> (name: String)
    requires
        end <= path@.len(),
    ensures
        name@ == joined(views(path@).take(end as int), " "@),
{
    let mut names: Vec<&str> = Vec::new();
    let mut i: usize = 0;
    while i < end
        invariant
            i <= end <= path@.len(),
            views(names@) == views(path@).take(i as int),
        decreases end - i,
    {
        let ghost before = views(names@);
        names.push(path[i]);
        assert(views(names@) == before.push(path@[i as int]@));
        i += 1;
    }
    join(&names, " ")
}

/// The help for the path `path` below `root`.
pub fn help<'a>(root: &'a GroupMeta, path: &[&str]) -> (report: HelpReport<'a>)
    ensures
        report@ == reported(*root, views(path@)),
{
    assert(views(path@).take(path@.len() as int) == views(path@));
    let name = path_name(path, path.len());
    let (thing, known) = root.reach(path);
    match thing {
        GroupOrCommandMetaRef::Command(c) => HelpReport::Command {
            name,
            params: c.visible_params(),
            description: borrow_text(&c.description),
        },
        GroupOrCommandMetaRef::Group(g) => {
            if known < path.len() {
                HelpReport::NotFound { name, within: path_name(path, known) }
            } else {
                report_group(g, name)
            }
        },
    }
}

/// The report of the group `g`, asked for under `name`.
fn report_group<'a>(g: &'a GroupMeta, name: String) -> (report: HelpReport<'a>)
    ensures
        report@ == described(GroupOrCommandMeta::Group(*g), name@),
{
    let mut subcommands: Vec<&str> = Vec::new();
    let mut i: usize = 0;
    while i < g.inner.len()
        invariant
            i <= g.inner@.len(),
            views(subcommands@) == names_of(g.inner@).take(i as int),
        decreases g.inner@.len() - i,
    {
        let ghost before = views(subcommands@);
        subcommands.push(g.inner[i].0.as_str());
        assert(views(subcommands@) == before.push(g.inner@[i as int].0@));
        i += 1;
    }
    assert(names_of(g.inner@).take(g.inner@.len() as int) == names_of(g.inner@));
    let fallback = match &g.fallback {
        Some(c) => Some(c.visible_params()),
        None => None,
    };
    HelpReport::Group { name, subcommands, fallback, description: borrow_text(&g.description) }
}

} // verus!
