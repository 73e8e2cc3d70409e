//! The repository that a comparison is made in.

use vstd::prelude::*;

use crate::collections::{any_item, any_where, ascending, first_error, no_items, push_item};
use crate::compiler::environment::{lossy_text, read_lossy};
use crate::compiler::graph::{CanonicalPath, CanonicalPathView};
use crate::compiler::sidecar::{reports, result_view};
use crate::model::{
    SelectedPathKind, SelectedPathReport, SelectedPathReportView, SelectionReport,
    SelectionReportView,
};
use crate::paths::{
    absolute, component_list, path_below, path_components, paths_match, portable, portable_path,
    resolve, same_path, strip_base,
};
use crate::text::{
    debug_text, join, joined, quoted, same, spaces, split, split_on, text_from, trim, trimmed_of,
};

verus! {

/// A path that a comparison covers, and the repository that it is in.
#[derive(Debug, PartialEq, Eq)]
pub struct RepositoryInput {
    pub path: String,
    pub repository: String,
}

/// The model of [`RepositoryInput`].
#[verifier::ext_equal]
pub struct RepositoryInputView {
    pub path: Seq<char>,
    pub repository: Seq<char>,
}

impl DeepView for RepositoryInput {
    type V = RepositoryInputView;

    open spec fn deep_view(&self) -> RepositoryInputView {
        RepositoryInputView {
            path: self.path.deep_view(),
            repository: self.repository.deep_view(),
        }
    }
}

impl Clone for RepositoryInput {
    fn clone(&self) -> (copy: Self)
        ensures
            copy.deep_view() == self.deep_view(),
    {
        let copy = RepositoryInput {
            path: self.path.clone(),
            repository: self.repository.clone(),
        };
        copy
    }
}

/// A path that a comparison covers: as it is given, but absolute, and as it resolves.
#[derive(Debug, PartialEq, Eq)]
pub struct SelectedInput {
    pub absolute: String,
    pub resolved: String,
    pub directory: bool,
}

/// The model of [`SelectedInput`].
#[verifier::ext_equal]
pub struct SelectedInputView {
    pub absolute: Seq<char>,
    pub resolved: Seq<char>,
    pub directory: bool,
}

impl DeepView for SelectedInput {
    type V = SelectedInputView;

    open spec fn deep_view(&self) -> SelectedInputView {
        SelectedInputView {
            absolute: self.absolute.deep_view(),
            resolved: self.resolved.deep_view(),
            directory: self.directory,
        }
    }
}

impl Clone for SelectedInput {
    fn clone(&self) -> (copy: Self)
        ensures
            copy.deep_view() == self.deep_view(),
    {
        let copy = SelectedInput {
            absolute: self.absolute.clone(),
            resolved: self.resolved.clone(),
            directory: self.directory,
        };
        copy
    }
}

/// What a path of a comparison is in the commit that is compared with.
#[derive(Debug, PartialEq, Eq)]
pub struct BaselineEntry {
    pub resolved: String,
    pub directory: bool,
}

/// The model of [`BaselineEntry`].
#[verifier::ext_equal]
pub struct BaselineEntryView {
    pub resolved: Seq<char>,
    pub directory: bool,
}

impl DeepView for BaselineEntry {
    type V = BaselineEntryView;

    open spec fn deep_view(&self) -> BaselineEntryView {
        BaselineEntryView {
            resolved: self.resolved.deep_view(),
            directory: self.directory,
        }
    }
}

impl Clone for BaselineEntry {
    fn clone(&self) -> (copy: Self)
        ensures
            copy.deep_view() == self.deep_view(),
    {
        let copy = BaselineEntry {
            resolved: self.resolved.clone(),
            directory: self.directory,
        };
        copy
    }
}

/// What is wrong with a path that a comparison covers.
pub open spec fn input_error(root: Seq<char>, input: RepositoryInputView) -> Option<Seq<char>> {
    if path_below(input.path, root) is None {
        Some(
            "input "@ + input.path + " is outside Git repository "@ + root
                + "; run one comparison per repository"@,
        )
    } else if !same_path(input.repository, root) {
        Some(
            "inputs span Git repositories "@ + root + " and "@ + input.repository
                + "; run one comparison per repository"@,
        )
    } else {
        None
    }
}

/// What is wrong with the paths that a comparison covers.
pub open spec fn inputs_error(root: Seq<char>, inputs: Seq<RepositoryInputView>) -> Option<Seq<char>> {
    if inputs.len() == 0 {
        Some("at least one input path is required"@)
    } else {
        first_error(inputs.len() as int, |i: int| input_error(root, inputs[i]), 0)
    }
}

fn check_input(root: &str, input: &RepositoryInput) -> (result: Result<(), String>)
    ensures
        reports(result, input_error(root@, input.deep_view())),
{
    if strip_base(input.path.as_str(), root).is_none() {
        let mut message = "input ".to_owned();
        message.append(input.path.as_str());
        message.append(" is outside Git repository ");
        message.append(root);
        message.append("; run one comparison per repository");
        return Err(message);
    }
    if !paths_match(input.repository.as_str(), root) {
        let mut message = "inputs span Git repositories ".to_owned();
        message.append(root);
        message.append(" and ");
        message.append(input.repository.as_str());
        message.append("; run one comparison per repository");
        return Err(message);
    }
    Ok(())
}

/// Checks that the paths that a comparison covers are all in one repository.
pub fn check_inputs(root: &str, inputs: &Vec<RepositoryInput>) -> (result: Result<(), String>)
    ensures
        reports(result, inputs_error(root@, inputs.deep_view())),
{
    let ghost all = inputs.deep_view();
    let ghost complaint = |i: int| input_error(root@, all[i]);
    proof {
        assert(all.len() == inputs.len());
    }
    if inputs.len() == 0 {
        return Err("at least one input path is required".to_owned());
    }
    let mut at: usize = 0;
    while at < inputs.len()
        invariant
            all == inputs.deep_view(),
            complaint == |i: int| input_error(root@, all[i]),
            0 < all.len(),
            at <= all.len(),
            inputs_error(root@, all) == first_error(all.len() as int, complaint, at as int),
        decreases all.len() - at,
    {
        proof {
            assert(all[at as int] == inputs[at as int].deep_view());
            assert(complaint(at as int) == input_error(root@, all[at as int]));
        }
        if let Err(message) = check_input(root, &inputs[at]) {
            return Err(message);
        }
        at = at + 1;
    }
    Ok(())
}

/// The names that are left of the first components of a path, when each step up takes one back.
pub open spec fn walked(names: Seq<Seq<char>>, count: int) -> Seq<Seq<char>>
    decreases count,
{
    if count <= 0 {
        Seq::empty()
    } else {
        let before = walked(names, count - 1);
        let name = names[count - 1];
        if name == seq!['.'] {
            before
        } else if name == seq!['.', '.'] {
            if before.len() > 0 {
                before.drop_last()
            } else {
                before
            }
        } else {
            before.push(name)
        }
    }
}

/// The names of an absolute path without steps up.
pub open spec fn plain_names(path: Seq<char>) -> Seq<Seq<char>> {
    let names = path_components(path);
    walked(names, names.len() as int)
}

/// An absolute path by its names.
pub open spec fn rooted(names: Seq<Seq<char>>) -> Seq<char> {
    seq!['/'] + joined(names, seq!['/'])
}

/// An absolute path without steps up.
pub open spec fn plain_path(path: Seq<char>) -> Seq<char> {
    rooted(plain_names(path))
}

fn list_plain_names(path: &str) -> (names: Vec<String>)
    ensures
        names.deep_view() == plain_names(path@),
{
    let components = component_list(&split(path, '/'));
    let ghost all = components.deep_view();
    let mut names: Vec<String> = no_items();
    let mut at: usize = 0;
    proof {
        assert(all == path_components(path@));
        reveal_strlit(".");
        reveal_strlit("..");
        assert("."@ =~= seq!['.']);
        assert(".."@ =~= seq!['.', '.']);
    }
    while at < components.len()
        invariant
            all == components.deep_view(),
            "."@ == seq!['.'],
            ".."@ == seq!['.', '.'],
            at <= all.len(),
            names.deep_view() == walked(all, at as int),
        decreases all.len() - at,
    {
        let ghost before = names.deep_view();
        proof {
            assert(all[at as int] == components[at as int]@);
            assert(before.len() == names.len());
        }
        let name = components[at].as_str();
        if same(name, "..") {
            if names.len() > 0 {
                let _ = names.pop();
                proof {
                    assert(names.deep_view() =~= before.drop_last());
                }
            }
        } else if !same(name, ".") {
            push_item(&mut names, components[at].clone());
        }
        at = at + 1;
    }
    names
}

fn write_rooted(names: &Vec<String>) -> (path: String)
    ensures
        path@ == rooted(names.deep_view()),
{
    proof {
        reveal_strlit("/");
        assert("/"@ =~= seq!['/']);
    }
    let mut path = "/".to_owned();
    path.append(join(names, "/").as_str());
    path
}

/// Takes the steps up out of an absolute path, without looking at what is there.
pub fn lexical_absolute(path: &str) -> (plain: String)
    requires
        absolute(path@),
    ensures
        plain@ == plain_path(path@),
{
    write_rooted(&list_plain_names(path))
}

/// The path and all directories that it is in, from the outermost on.
pub open spec fn ancestors_of(path: Seq<char>) -> Seq<Seq<char>> {
    let names = plain_names(path);
    Seq::new(names.len() + 1, |i: int| rooted(names.take(i)))
}

fn take_names(names: &Vec<String>, from: usize, to: usize) -> (part: Vec<String>)
    requires
        from <= to <= names.len(),
    ensures
        part.deep_view() == names.deep_view().subrange(from as int, to as int),
{
    let ghost all = names.deep_view();
    let mut part: Vec<String> = no_items();
    let mut at: usize = from;
    proof {
        assert(all.subrange(from as int, from as int) =~= Seq::<Seq<char>>::empty());
    }
    while at < to
        invariant
            all == names.deep_view(),
            from <= at <= to <= names.len(),
            part.deep_view() == all.subrange(from as int, at as int),
        decreases to - at,
    {
        proof {
            assert(all[at as int] == names[at as int]@);
            assert(all.subrange(from as int, at as int + 1) =~= all.subrange(
                from as int,
                at as int,
            ).push(all[at as int]));
        }
        push_item(&mut part, names[at].clone());
        at = at + 1;
    }
    part
}

/// Lists an absolute path, without steps up, and all directories that it is in, from the outermost
/// on.
pub fn ancestors(path: &str) -> (list: Vec<String>)
    ensures
        list.deep_view() == ancestors_of(path@),
{
    let names = list_plain_names(path);
    let ghost all = names.deep_view();
    let mut list: Vec<String> = no_items();
    let mut at: usize = 0;
    proof {
        assert(ancestors_of(path@).take(0) =~= Seq::<Seq<char>>::empty());
    }
    while at < names.len()
        invariant
            all == names.deep_view(),
            all == plain_names(path@),
            at <= all.len(),
            list.deep_view() == ancestors_of(path@).take(at as int),
        decreases all.len() - at,
    {
        proof {
            assert(all.subrange(0, at as int) =~= all.take(at as int));
            assert(ancestors_of(path@).take(at as int + 1) =~= ancestors_of(path@).take(
                at as int,
            ).push(rooted(all.take(at as int))));
        }
        push_item(&mut list, write_rooted(&take_names(&names, 0, at)));
        at = at + 1;
    }
    proof {
        assert(all.len() == names.len());
        assert(all.take(all.len() as int) =~= all);
        assert(ancestors_of(path@) =~= ancestors_of(path@).take(at as int).push(
            rooted(all.take(at as int)),
        ));
    }
    push_item(&mut list, write_rooted(&names));
    list
}

/// Whether a path is known to lead to a directory.
pub open spec fn leads_to(known: Seq<CanonicalPathView>, path: Seq<char>, root: Seq<char>) -> bool {
    any_where(
        known,
        |entry: CanonicalPathView| same_path(entry.path, path) && same_path(entry.canonical, root),
    )
}

fn is_known_to_lead(known: &Vec<CanonicalPath>, path: &str, root: &str) -> (result: bool)
    ensures
        result == leads_to(known.deep_view(), path@, root@),
{
    let ghost property = |entry: CanonicalPathView|
        same_path(entry.path, path@) && same_path(entry.canonical, root@);
    let test = |entry: &CanonicalPath| -> (result: bool)
        ensures
            result == property(entry.deep_view()),
    {
        paths_match(entry.path.as_str(), path) && paths_match(entry.canonical.as_str(), root)
    };
    any_item(known, test, Ghost(property))
}

/// How many names lead to the root, from a number of them on; the outermost way counts.
pub open spec fn names_to_root(
    names: Seq<Seq<char>>,
    known: Seq<CanonicalPathView>,
    root: Seq<char>,
    from: int,
) -> Option<int>
    decreases names.len() + 1 - from,
{
    if from > names.len() {
        None
    } else if leads_to(known, rooted(names.take(from)), root) {
        Some(from)
    } else {
        names_to_root(names, known, root, from + 1)
    }
}

/// How a path that a comparison covers is written, taken from the root of the repository: as it was
/// given, as far as that leads to the root, else as it resolves.
pub open spec fn relative_of(
    root: Seq<char>,
    known: Seq<CanonicalPathView>,
    input: SelectedInputView,
) -> Result<Seq<char>, Seq<char>> {
    match path_below(input.resolved, root) {
        None => Err(
            "input "@ + plain_path(input.absolute) + " resolves outside Git repository "@ + root,
        ),
        Some(rest) => {
            let names = plain_names(input.absolute);
            match names_to_root(names, known, root, 0) {
                Some(count) => Ok(joined(names.skip(count), seq!['/'])),
                None => Ok(rest),
            }
        },
    }
}

/// Writes a path that a comparison covers, taken from the root of the repository.
pub fn relative_input(root: &str, known: &Vec<CanonicalPath>, input: &SelectedInput) -> (result:
    Result<String, String>)
    ensures
        result_view(result) == relative_of(root@, known.deep_view(), input.deep_view()),
{
    let names = list_plain_names(input.absolute.as_str());
    let ghost all = names.deep_view();
    let rest = match strip_base(input.resolved.as_str(), root) {
        Some(rest) => rest,
        None => {
            let mut message = "input ".to_owned();
            message.append(write_rooted(&names).as_str());
            message.append(" resolves outside Git repository ");
            message.append(root);
            return Err(message);
        },
    };
    let mut at: usize = 0;
    proof {
        reveal_strlit("/");
        assert("/"@ =~= seq!['/']);
    }
    while at <= names.len()
        invariant
            all == names.deep_view(),
            "/"@ == seq!['/'],
            at <= names.len() + 1,
            all == plain_names(input.absolute@),
            path_below(input.resolved@, root@) == Some(rest@),
            names_to_root(all, known.deep_view(), root@, 0) == names_to_root(
                all,
                known.deep_view(),
                root@,
                at as int,
            ),
        decreases names.len() + 1 - at,
    {
        proof {
            assert(all.subrange(0, at as int) =~= all.take(at as int));
            assert(all.subrange(at as int, all.len() as int) =~= all.skip(at as int));
        }
        let ancestor = write_rooted(&take_names(&names, 0, at));
        if is_known_to_lead(known, ancestor.as_str(), root) {
            return Ok(join(&take_names(&names, at, names.len()), "/"));
        }
        if at == names.len() {
            proof {
                assert(names_to_root(all, known.deep_view(), root@, at as int + 1) is None);
            }
            return Ok(rest);
        }
        at = at + 1;
    }
    Ok(rest)
}

/// A path of a selection, as it is written.
pub open spec fn written_path(relative: Seq<char>) -> Seq<char> {
    if relative.len() == 0 {
        "."@
    } else {
        portable_path(relative)
    }
}

/// A path of a selection.
pub open spec fn selected_entry(relative: Seq<char>, directory: bool) -> SelectedPathReportView {
    SelectedPathReportView {
        path: written_path(relative),
        kind: if directory {
            SelectedPathKind::Directory
        } else {
            SelectedPathKind::File
        },
    }
}

/// What is wrong with the paths of a selection.
pub open spec fn selection_error(
    root: Seq<char>,
    known: Seq<CanonicalPathView>,
    inputs: Seq<SelectedInputView>,
) -> Option<Seq<char>> {
    first_error(
        inputs.len() as int,
        |i: int|
            match relative_of(root, known, inputs[i]) {
                Ok(_) => None,
                Err(message) => Some(message),
            },
        0,
    )
}

/// All paths of a selection.
pub open spec fn selected_entries(
    root: Seq<char>,
    known: Seq<CanonicalPathView>,
    inputs: Seq<SelectedInputView>,
) -> Seq<SelectedPathReportView> {
    Seq::new(
        inputs.len(),
        |i: int| selected_entry(relative_of(root, known, inputs[i])->Ok_0, inputs[i].directory),
    )
}

/// What a comparison covers.
pub open spec fn repository_selection(
    root: Seq<char>,
    known: Seq<CanonicalPathView>,
    inputs: Seq<SelectedInputView>,
    include_hidden: bool,
    respect_ignores: bool,
) -> SelectionReportView {
    SelectionReportView {
        paths: ascending::<SelectedPathReport>(selected_entries(root, known, inputs).to_set()),
        include_hidden,
        respect_ignores,
        ignore_boundary: "path"@,
    }
}

fn write_path(relative: &str) -> (text: String)
    ensures
        text@ == written_path(relative@),
{
    proof {
        reveal_strlit("");
        if relative@.len() == 0 {
            assert(relative@ =~= ""@);
        }
    }
    if same(relative, "") {
        ".".to_owned()
    } else {
        portable(relative)
    }
}

/// Reports what a comparison covers.
pub fn selection(
    root: &str,
    known: &Vec<CanonicalPath>,
    inputs: &Vec<SelectedInput>,
    include_hidden: bool,
    respect_ignores: bool,
) -> (result: Result<SelectionReport, String>)
    ensures
        reports(result, selection_error(root@, known.deep_view(), inputs.deep_view())),
        result matches Ok(selection) ==> selection.deep_view() == repository_selection(
            root@,
            known.deep_view(),
            inputs.deep_view(),
            include_hidden,
            respect_ignores,
        ),
{
    let ghost all = inputs.deep_view();
    let ghost forms = known.deep_view();
    let ghost complaint = |i: int|
        match relative_of(root@, forms, all[i]) {
            Ok(_) => None,
            Err(message) => Some(message),
        };
    let ghost entries = selected_entries(root@, forms, all);
    let mut selected: Vec<SelectedPathReport> = no_items();
    let mut at: usize = 0;
    proof {
        assert(entries.take(0) =~= Seq::<SelectedPathReportView>::empty());
    }
    while at < inputs.len()
        invariant
            all == inputs.deep_view(),
            forms == known.deep_view(),
            complaint == |i: int|
                match relative_of(root@, forms, all[i]) {
                    Ok(_) => None,
                    Err(message) => Some(message),
                },
            entries == selected_entries(root@, forms, all),
            at <= all.len(),
            selected.deep_view() == entries.take(at as int),
            selection_error(root@, forms, all) == first_error(
                all.len() as int,
                complaint,
                at as int,
            ),
        decreases all.len() - at,
    {
        let input = &inputs[at];
        proof {
            assert(all[at as int] == input.deep_view());
            assert(complaint(at as int) == match relative_of(root@, forms, all[at as int]) {
                Ok(_) => None,
                Err(message) => Some(message),
            });
            assert(entries.take(at as int + 1) =~= entries.take(at as int).push(
                entries[at as int],
            ));
        }
        let relative = match relative_input(root, known, input) {
            Ok(relative) => relative,
            Err(message) => return Err(message),
        };
        push_item(
            &mut selected,
            SelectedPathReport {
                path: write_path(relative.as_str()),
                kind: if input.directory {
                    SelectedPathKind::Directory
                } else {
                    SelectedPathKind::File
                },
            },
        );
        at = at + 1;
    }
    proof {
        assert(entries.take(all.len() as int) =~= entries);
    }
    Ok(SelectionReport::new(selected, include_hidden, respect_ignores))
}

/// What a path is called by what is there.
pub open spec fn entry_kind(directory: bool) -> Seq<char> {
    if directory {
        "directory"@
    } else {
        "file"@
    }
}

/// What is wrong with a path of a comparison in the commit that is compared with.
pub open spec fn baseline_path_error(
    relative: Seq<char>,
    directory: bool,
    baseline_root: Seq<char>,
    baseline: Option<BaselineEntryView>,
) -> Option<Seq<char>> {
    match baseline {
        None => Some(
            "selected path "@ + portable_path(relative)
                + " does not exist in baseline; compare a containing directory to include additions"@,
        ),
        Some(entry) => if path_below(entry.resolved, baseline_root) is None {
            Some(
                "baseline path "@ + portable_path(relative)
                    + " resolves outside the materialized commit"@,
            )
        } else if directory != entry.directory {
            Some(
                "selected path "@ + portable_path(relative) + " is a "@ + entry_kind(directory)
                    + " in the working tree but a "@ + entry_kind(entry.directory)
                    + " in the baseline; compare a stable containing directory instead"@,
            )
        } else {
            None
        },
    }
}

fn write_kind(directory: bool) -> (text: &'static str)
    ensures
        text@ == entry_kind(directory),
{
    if directory {
        "directory"
    } else {
        "file"
    }
}

fn differ(left: bool, right: bool) -> (result: bool)
    ensures
        result == (left != right),
{
    if left {
        !right
    } else {
        right
    }
}

/// Checks a path of a comparison in the commit that is compared with: it is there, stays there, and
/// is of the same kind.
pub fn check_baseline_path(
    relative: &str,
    directory: bool,
    baseline_root: &str,
    baseline: &Option<BaselineEntry>,
) -> (result: Result<(), String>)
    ensures
        reports(
            result,
            baseline_path_error(relative@, directory, baseline_root@, baseline.deep_view()),
        ),
{
    let entry = match baseline {
        Some(entry) => entry,
        None => {
            let mut message = "selected path ".to_owned();
            message.append(portable(relative).as_str());
            message.append(
                " does not exist in baseline; compare a containing directory to include additions",
            );
            return Err(message);
        },
    };
    if strip_base(entry.resolved.as_str(), baseline_root).is_none() {
        let mut message = "baseline path ".to_owned();
        message.append(portable(relative).as_str());
        message.append(" resolves outside the materialized commit");
        return Err(message);
    }
    if differ(directory, entry.directory) {
        let mut message = "selected path ".to_owned();
        message.append(portable(relative).as_str());
        message.append(" is a ");
        message.append(write_kind(directory));
        message.append(" in the working tree but a ");
        message.append(write_kind(entry.directory));
        message.append(" in the baseline; compare a stable containing directory instead");
        return Err(message);
    }
    Ok(())
}

/// The arguments of Git that find a commit.
pub open spec fn commit_arguments_of(revision: Seq<char>) -> Seq<Seq<char>> {
    seq!["rev-parse"@, "--verify"@, "--end-of-options"@, revision + "^{commit}"@]
}

/// Whether a name of a commit is none.
pub open spec fn is_blank(revision: Seq<char>) -> bool {
    trimmed_of(revision, spaces()).len() == 0
}

/// Lists the arguments of Git that find a commit.
pub fn commit_arguments(revision: &str) -> (result: Result<Vec<String>, String>)
    ensures
        match result {
            Ok(arguments) => !is_blank(revision@) && arguments.deep_view() == commit_arguments_of(
                revision@,
            ),
            Err(message) => is_blank(revision@) && message@
                == "--baseline requires a non-empty Git ref"@,
        },
{
    let trimmed = trim(revision);
    proof {
        reveal_strlit("");
        if trimmed@.len() == 0 {
            assert(trimmed@ =~= ""@);
        }
    }
    if same(trimmed.as_str(), "") {
        return Err("--baseline requires a non-empty Git ref".to_owned());
    }
    let mut expression = revision.to_owned();
    expression.append("^{commit}");
    let mut arguments: Vec<String> = no_items();
    push_item(&mut arguments, "rev-parse".to_owned());
    push_item(&mut arguments, "--verify".to_owned());
    push_item(&mut arguments, "--end-of-options".to_owned());
    push_item(&mut arguments, expression);
    proof {
        assert(arguments.deep_view() =~= commit_arguments_of(revision@));
    }
    Ok(arguments)
}

/// What Git writes where it fails, without white space at its ends.
pub open spec fn git_complaint(stderr: Seq<u8>) -> Seq<char> {
    trimmed_of(lossy_text(stderr), spaces())
}

/// What is wrong with what Git says of a commit.
pub open spec fn commit_error(
    revision: Seq<char>,
    success: bool,
    stdout: Seq<u8>,
    stderr: Seq<u8>,
) -> Option<Seq<char>> {
    if !success {
        Some(
            "Git ref "@ + debug_text(revision) + " does not resolve to a commit: "@
                + git_complaint(stderr),
        )
    } else if !vstd::utf8::valid_utf8(stdout) {
        Some("Git emitted a non-UTF-8 commit ID"@)
    } else {
        None
    }
}

/// Reads what Git says of a commit.
pub fn read_commit(revision: &str, success: bool, stdout: &Vec<u8>, stderr: &Vec<u8>) -> (result:
    Result<String, String>)
    ensures
        reports(result, commit_error(revision@, success, stdout@, stderr@)),
        result matches Ok(commit) ==> commit@ == trimmed_of(
            vstd::utf8::decode_utf8(stdout@),
            spaces(),
        ),
{
    if !success {
        let mut message = "Git ref ".to_owned();
        message.append(quoted(revision).as_str());
        message.append(" does not resolve to a commit: ");
        message.append(trim(read_lossy(stderr).as_str()).as_str());
        return Err(message);
    }
    match text_from(stdout, "Git emitted a non-UTF-8 commit ID") {
        Ok(text) => Ok(trim(text.as_str())),
        Err(message) => Err(message),
    }
}

/// What is wrong with what Git says of the working tree.
pub open spec fn status_error(success: bool, stderr: Seq<u8>) -> Option<Seq<char>> {
    if success {
        None
    } else {
        Some("cannot inspect working-tree status: "@ + git_complaint(stderr))
    }
}

/// Tells whether the working tree has changes, by what Git says of it.
pub fn read_status(success: bool, stdout: &Vec<u8>, stderr: &Vec<u8>) -> (result: Result<
    bool,
    String,
>)
    ensures
        reports(result, status_error(success, stderr@)),
        result matches Ok(dirty) ==> dirty == (stdout.len() > 0),
{
    if !success {
        let mut message = "cannot inspect working-tree status: ".to_owned();
        message.append(trim(read_lossy(stderr).as_str()).as_str());
        return Err(message);
    }
    Ok(stdout.len() > 0)
}

/// What is wrong with an answer of Git.
pub open spec fn git_error(success: bool, stdout: Seq<u8>, stderr: Seq<u8>) -> Option<Seq<char>> {
    if !success {
        Some("git failed: "@ + git_complaint(stderr))
    } else if !vstd::utf8::valid_utf8(stdout) {
        Some("Git emitted non-UTF-8 output"@)
    } else {
        None
    }
}

/// Reads an answer of Git.
pub fn git_text(success: bool, stdout: &Vec<u8>, stderr: &Vec<u8>) -> (result: Result<
    String,
    String,
>)
    ensures
        reports(result, git_error(success, stdout@, stderr@)),
        result matches Ok(text) ==> text@ == vstd::utf8::decode_utf8(stdout@),
{
    if !success {
        let mut message = "git failed: ".to_owned();
        message.append(trim(read_lossy(stderr).as_str()).as_str());
        return Err(message);
    }
    text_from(stdout, "Git emitted non-UTF-8 output")
}

/// The variables by which Git is told another place than the directory that it runs in, separated by
/// spaces.
pub const GIT_VARIABLES: &'static str =
    "GIT_DIR GIT_WORK_TREE GIT_COMMON_DIR GIT_INDEX_FILE GIT_OBJECT_DIRECTORY GIT_ALTERNATE_OBJECT_DIRECTORIES GIT_NAMESPACE GIT_PREFIX";

/// Lists the variables that Git is to run without, so that it goes by the directory that it runs in.
pub fn git_variables() -> (names: Vec<String>)
    ensures
        names.deep_view() == split_on(GIT_VARIABLES@, ' '),
{
    split(GIT_VARIABLES, ' ')
}

/// A path without steps up has no name that is a step, and no empty one.
pub proof fn law_plain_names_are_names(path: Seq<char>, i: int)
    requires
        0 <= i < plain_names(path).len(),
    ensures
        plain_names(path)[i] != seq!['.'],
        plain_names(path)[i] != seq!['.', '.'],
        plain_names(path)[i].len() > 0,
{
    let pieces = split_on(path, '/');
    lemma_components_named(pieces, pieces.len() as int);
    lemma_walked(path_components(path), path_components(path).len() as int);
}

proof fn lemma_components_named(pieces: Seq<Seq<char>>, count: int)
    requires
        count <= pieces.len(),
    ensures
        forall|i: int|
            0 <= i < crate::paths::components(pieces, count).len() ==> (
            #[trigger] crate::paths::components(pieces, count)[i]).len() > 0,
    decreases count,
{
    if count > 0 {
        lemma_components_named(pieces, count - 1);
        let before = crate::paths::components(pieces, count - 1);
        let all = crate::paths::components(pieces, count);
        assert forall|i: int| 0 <= i < all.len() implies (#[trigger] all[i]).len() > 0 by {
            if i < before.len() {
                assert(all[i] == before[i]);
            }
        }
    }
}

proof fn lemma_walked(names: Seq<Seq<char>>, count: int)
    requires
        0 <= count <= names.len(),
        forall|i: int| 0 <= i < names.len() ==> (#[trigger] names[i]).len() > 0,
    ensures
        forall|i: int|
            0 <= i < walked(names, count).len() ==> (#[trigger] walked(names, count)[i]).len() > 0
                && walked(names, count)[i] != seq!['.'] && walked(names, count)[i] != seq![
                '.',
                '.',
            ],
    decreases count,
{
    if count > 0 {
        lemma_walked(names, count - 1);
        let before = walked(names, count - 1);
        let all = walked(names, count);
        assert forall|i: int| 0 <= i < all.len() implies (#[trigger] all[i]).len() > 0 && all[i]
            != seq!['.'] && all[i] != seq!['.', '.'] by {
            if i < before.len() {
                assert(all[i] == before[i]);
            } else {
                assert(all[i] == names[count - 1]);
            }
        }
    }
}

/// Of all ways to the root of the repository that a path goes through, the outermost counts: a link
/// back to it does not take away what comes before.
pub proof fn law_outermost_way_counts(
    names: Seq<Seq<char>>,
    known: Seq<CanonicalPathView>,
    root: Seq<char>,
    from: int,
    count: int,
)
    requires
        0 <= from <= count <= names.len(),
        leads_to(known, rooted(names.take(count)), root),
    ensures
        names_to_root(names, known, root, from) matches Some(found) && from <= found <= count
            && leads_to(known, rooted(names.take(found)), root),
    decreases count - from,
{
    if from < count && !leads_to(known, rooted(names.take(from)), root) {
        law_outermost_way_counts(names, known, root, from + 1, count);
    }
}

} // verus!
