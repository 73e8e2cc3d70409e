//! The arguments of a call of the compiler.

use vstd::prelude::*;

use crate::collections::{
    any_item, append_items, ascending, collect_items, collected, find_first, first_where, flatten_places,
    flattened, no_items, push_item, sorted_unique,
};
use crate::compiler::graph::{
    canonical_form, canonical_key, look_up, look_up_key, CanonicalPath, CanonicalPathView,
};
use crate::driver::spans::{length_prefixed, length_prefixed_text};
use crate::paths::{has_extension, has_extension_of, same_key, PathKey};
use crate::protocol::{
    ArtifactIdentity, ArtifactIdentityView, CompilationContext, InvocationMergeKey,
};
use crate::text::{
    alphanumeric, begins_with, byte_length, chars_of, is_alphanumeric, join, joined, list_contains,
    no_text, same, split, split_on, starts_with, strip_prefix, text_of, utf8_length, without_prefix,
};

verus! {

/// What the driver finds around it.
#[derive(Debug, PartialEq, Eq)]
pub struct DriverEnvironment {
    pub working_directory: String,
    pub manifest_dir: Option<String>,
    pub build_script_out_dir: Option<String>,
    pub package_name: Option<String>,
    pub crate_name: Option<String>,
    pub primary_package: bool,
    /// The target triple of the machine.
    pub host: String,
    /// The canonical forms of the paths that have one.
    pub canonical: Vec<CanonicalPath>,
}

/// The model of [`DriverEnvironment`].
#[verifier::ext_equal]
pub struct DriverEnvironmentView {
    pub working_directory: Seq<char>,
    pub manifest_dir: Option<Seq<char>>,
    pub build_script_out_dir: Option<Seq<char>>,
    pub package_name: Option<Seq<char>>,
    pub crate_name: Option<Seq<char>>,
    pub primary_package: bool,
    pub host: Seq<char>,
    pub canonical: Seq<CanonicalPathView>,
}

impl DeepView for DriverEnvironment {
    type V = DriverEnvironmentView;

    open spec fn deep_view(&self) -> DriverEnvironmentView {
        DriverEnvironmentView {
            working_directory: self.working_directory.deep_view(),
            manifest_dir: self.manifest_dir.deep_view(),
            build_script_out_dir: self.build_script_out_dir.deep_view(),
            package_name: self.package_name.deep_view(),
            crate_name: self.crate_name.deep_view(),
            primary_package: self.primary_package,
            host: self.host.deep_view(),
            canonical: self.canonical.deep_view(),
        }
    }
}

/// What a call of the compiler asks for.
#[derive(Debug, PartialEq, Eq)]
pub struct InvocationArgs {
    pub rustc_path: String,
    pub working_directory: String,
    pub manifest_dir: Option<String>,
    pub build_script_out_dir: Option<String>,
    pub package_name: Option<String>,
    pub primary_package: bool,
    pub crate_name: String,
    pub input: Option<String>,
    pub artifact: ArtifactIdentity,
    pub target: String,
    pub compilation_context: CompilationContext,
    pub test_mode: bool,
    pub cfg: Vec<String>,
    pub relevant_codegen: Vec<String>,
    pub collectible: bool,
}

/// The model of [`InvocationArgs`].
#[verifier::ext_equal]
pub struct InvocationArgsView {
    pub rustc_path: Seq<char>,
    pub working_directory: Seq<char>,
    pub manifest_dir: Option<Seq<char>>,
    pub build_script_out_dir: Option<Seq<char>>,
    pub package_name: Option<Seq<char>>,
    pub primary_package: bool,
    pub crate_name: Seq<char>,
    pub input: Option<Seq<char>>,
    pub artifact: ArtifactIdentityView,
    pub target: Seq<char>,
    pub compilation_context: CompilationContext,
    pub test_mode: bool,
    pub cfg: Seq<Seq<char>>,
    pub relevant_codegen: Seq<Seq<char>>,
    pub collectible: bool,
}

impl DeepView for InvocationArgs {
    type V = InvocationArgsView;

    open spec fn deep_view(&self) -> InvocationArgsView {
        InvocationArgsView {
            rustc_path: self.rustc_path.deep_view(),
            working_directory: self.working_directory.deep_view(),
            manifest_dir: self.manifest_dir.deep_view(),
            build_script_out_dir: self.build_script_out_dir.deep_view(),
            package_name: self.package_name.deep_view(),
            primary_package: self.primary_package,
            crate_name: self.crate_name.deep_view(),
            input: self.input.deep_view(),
            artifact: self.artifact.deep_view(),
            target: self.target.deep_view(),
            compilation_context: self.compilation_context,
            test_mode: self.test_mode,
            cfg: self.cfg.deep_view(),
            relevant_codegen: self.relevant_codegen.deep_view(),
            collectible: self.collectible,
        }
    }
}

impl Clone for InvocationArgs {
    fn clone(&self) -> (copy: Self)
        ensures
            copy.deep_view() == self.deep_view(),
    {
        let copy = InvocationArgs {
            rustc_path: self.rustc_path.clone(),
            working_directory: self.working_directory.clone(),
            manifest_dir: self.manifest_dir.clone(),
            build_script_out_dir: self.build_script_out_dir.clone(),
            package_name: self.package_name.clone(),
            primary_package: self.primary_package,
            crate_name: self.crate_name.clone(),
            input: self.input.clone(),
            artifact: self.artifact.clone(),
            target: self.target.clone(),
            compilation_context: self.compilation_context,
            test_mode: self.test_mode,
            cfg: self.cfg.clone(),
            relevant_codegen: self.relevant_codegen.clone(),
            collectible: self.collectible,
        };
        proof {
            assert(copy.manifest_dir.deep_view() =~= self.manifest_dir.deep_view());
            assert(copy.build_script_out_dir.deep_view() =~= self.build_script_out_dir.deep_view());
            assert(copy.package_name.deep_view() =~= self.package_name.deep_view());
            assert(copy.input.deep_view() =~= self.input.deep_view());
            assert(copy.artifact.deep_view() =~= self.artifact.deep_view());
            assert(copy.cfg.deep_view() =~= self.cfg.deep_view());
            assert(copy.relevant_codegen.deep_view() =~= self.relevant_codegen.deep_view());
        }
        copy
    }
}

/// The values of an option among the arguments from a place on: the next argument, or what is
/// behind an equals sign.
pub open spec fn options_from(args: Seq<Seq<char>>, name: Seq<char>, from: int) -> Seq<Seq<char>>
    decreases args.len() - from,
{
    if from < 0 || from >= args.len() {
        Seq::empty()
    } else if args[from] == name {
        if from + 1 < args.len() {
            seq![args[from + 1]] + options_from(args, name, from + 2)
        } else {
            options_from(args, name, from + 1)
        }
    } else {
        match without_prefix(args[from], name + "="@) {
            Some(value) => seq![value] + options_from(args, name, from + 1),
            None => options_from(args, name, from + 1),
        }
    }
}

/// Lists the values of an option.
pub fn option_values(args: &Vec<String>, name: &str) -> (values: Vec<String>)
    ensures
        values.deep_view() == options_from(args.deep_view(), name@, 0),
{
    let ghost all = args.deep_view();
    let mut prefix = name.to_owned();
    prefix.append("=");
    let mut values: Vec<String> = no_items();
    let mut index: usize = 0;
    proof {
        assert(options_from(all, name@, 0) =~= values.deep_view() + options_from(all, name@, 0));
    }
    while index < args.len()
        invariant
            all == args.deep_view(),
            prefix@ == name@ + "="@,
            index <= all.len(),
            options_from(all, name@, 0) == values.deep_view() + options_from(
                all,
                name@,
                index as int,
            ),
        decreases all.len() - index,
    {
        let ghost before = values.deep_view();
        proof {
            assert(all[index as int] == args[index as int]@);
        }
        if same(args[index].as_str(), name) {
            if index + 1 < args.len() {
                proof {
                    assert(all[index as int + 1] == args[index as int + 1]@);
                    assert(before + (seq![all[index as int + 1]] + options_from(
                        all,
                        name@,
                        index as int + 2,
                    )) =~= before.push(all[index as int + 1]) + options_from(
                        all,
                        name@,
                        index as int + 2,
                    ));
                }
                push_item(&mut values, args[index + 1].clone());
                index = index + 2;
            } else {
                index = index + 1;
            }
        } else {
            if let Some(value) = strip_prefix(args[index].as_str(), prefix.as_str()) {
                proof {
                    assert(before + (seq![value@] + options_from(all, name@, index as int + 1))
                        =~= before.push(value@) + options_from(all, name@, index as int + 1));
                }
                push_item(&mut values, value);
            }
            index = index + 1;
        }
    }
    proof {
        assert(values.deep_view() + options_from(all, name@, index as int) =~= values.deep_view());
    }
    values
}

/// The first of some values.
pub open spec fn first_value(values: Seq<Seq<char>>) -> Option<Seq<char>> {
    if values.len() == 0 {
        None
    } else {
        Some(values[0])
    }
}

/// Finds the first value of an option.
pub fn option_value(args: &Vec<String>, name: &str) -> (value: Option<String>)
    ensures
        value.deep_view() == first_value(options_from(args.deep_view(), name@, 0)),
{
    let values = option_values(args, name);
    proof {
        assert(values.deep_view().len() == values.len());
    }
    if values.len() == 0 {
        None
    } else {
        proof {
            assert(values.deep_view()[0] == values[0]@);
        }
        Some(values[0].clone())
    }
}

/// The values of a code generation option among the arguments from a place on.
pub open spec fn codegen_from(args: Seq<Seq<char>>, name: Seq<char>, from: int) -> Seq<Seq<char>>
    decreases args.len() - from,
{
    if from < 0 || from >= args.len() {
        Seq::empty()
    } else {
        let separate = args[from] == "-C"@;
        let next = if separate && from + 1 < args.len() {
            from + 2
        } else {
            from + 1
        };
        let option = if !separate {
            without_prefix(args[from], "-C"@)
        } else if from + 1 < args.len() {
            Some(args[from + 1])
        } else {
            None
        };
        match option {
            Some(option) => match without_prefix(option, name + "="@) {
                Some(value) => seq![value] + codegen_from(args, name, next),
                None => codegen_from(args, name, next),
            },
            None => codegen_from(args, name, next),
        }
    }
}

/// Lists the values of a code generation option.
pub fn codegen_values(args: &Vec<String>, name: &str) -> (values: Vec<String>)
    ensures
        values.deep_view() == codegen_from(args.deep_view(), name@, 0),
{
    let ghost all = args.deep_view();
    let mut prefix = name.to_owned();
    prefix.append("=");
    let mut values: Vec<String> = no_items();
    let mut index: usize = 0;
    proof {
        assert(codegen_from(all, name@, 0) =~= values.deep_view() + codegen_from(all, name@, 0));
    }
    while index < args.len()
        invariant
            all == args.deep_view(),
            prefix@ == name@ + "="@,
            index <= all.len(),
            codegen_from(all, name@, 0) == values.deep_view() + codegen_from(
                all,
                name@,
                index as int,
            ),
        decreases all.len() - index,
    {
        let ghost before = values.deep_view();
        let ghost at = index as int;
        proof {
            assert(all[at] == args[at]@);
        }
        let option: Option<String>;
        let next: usize;
        if same(args[index].as_str(), "-C") {
            if index + 1 < args.len() {
                proof {
                    assert(all[at + 1] == args[at + 1]@);
                }
                option = Some(args[index + 1].clone());
                next = index + 2;
            } else {
                option = None;
                next = index + 1;
            }
        } else {
            option = strip_prefix(args[index].as_str(), "-C");
            next = index + 1;
        }
        if let Some(option) = option {
            if let Some(value) = strip_prefix(option.as_str(), prefix.as_str()) {
                proof {
                    let rest = codegen_from(all, name@, next as int);
                    assert(before + (seq![value@] + rest) =~= before.push(value@) + rest);
                }
                push_item(&mut values, value);
            }
        }
        index = next;
    }
    proof {
        assert(values.deep_view() + codegen_from(all, name@, index as int) =~= values.deep_view());
    }
    values
}

/// The last of some values.
pub open spec fn last_value(values: Seq<Seq<char>>) -> Option<Seq<char>> {
    if values.len() == 0 {
        None
    } else {
        Some(values.last())
    }
}

/// Finds the value of a code generation option that is in effect: the last one.
pub fn codegen_value(args: &Vec<String>, name: &str) -> (value: Option<String>)
    ensures
        value.deep_view() == last_value(codegen_from(args.deep_view(), name@, 0)),
{
    let values = codegen_values(args, name);
    proof {
        assert(values.deep_view().len() == values.len());
    }
    if values.len() == 0 {
        None
    } else {
        proof {
            assert(values.deep_view()[values.len() - 1] == values[values.len() - 1]@);
        }
        Some(values[values.len() - 1].clone())
    }
}

/// The parts of some values, which are separated by commas.
pub open spec fn comma_parts(values: Seq<Seq<char>>) -> Seq<Seq<char>> {
    flattened(values.len() as int, |i: int| split_on(values[i], ','))
}

fn split_commas(values: &Vec<String>) -> (parts: Vec<String>)
    ensures
        parts.deep_view() == comma_parts(values.deep_view()),
{
    let ghost all = values.deep_view();
    let ghost f = |i: int| split_on(all[i], ',');
    let pick = |i: usize| -> (parts: Vec<String>)
        requires
            i < values.len(),
        ensures
            parts.deep_view() == f(i as int),
    {
        proof {
            assert(values.deep_view()[i as int] == values[i as int]@);
        }
        split(values[i].as_str(), ',')
    };
    flatten_places(values.len(), pick, Ghost(f))
}

/// Whether an argument names a Rust source file.
pub open spec fn is_input() -> spec_fn(Seq<char>) -> bool {
    |argument: Seq<char>| !begins_with(argument, "-"@) && has_extension_of(argument, "rs"@)
}

/// The values of the code generation options that matter, each with its name.
pub open spec fn named_values(args: Seq<Seq<char>>, name: Seq<char>) -> Seq<Seq<char>> {
    collected(
        codegen_from(args, name, 0),
        |value: Seq<char>| Some(name + "="@ + value),
    )
}

fn list_named_values(args: &Vec<String>, name: &str) -> (list: Vec<String>)
    ensures
        list.deep_view() == named_values(args.deep_view(), name@),
{
    let ghost f = |value: Seq<char>| Some(name@ + "="@ + value);
    let pick = |value: &String| -> (text: Option<String>)
        ensures
            text.deep_view() == f(value.deep_view()),
    {
        let mut text = name.to_owned();
        text.append("=");
        text.append(value.as_str());
        Some(text)
    };
    collect_items(&codegen_values(args, name), pick, Ghost(f))
}

/// The code generation options that tell calls apart.
pub open spec fn relevant_options(args: Seq<Seq<char>>) -> Seq<Seq<char>> {
    named_values(args, "debug-assertions"@) + named_values(args, "codegen-units"@) + named_values(
        args,
        "opt-level"@,
    ) + named_values(args, "overflow-checks"@) + named_values(args, "panic"@) + named_values(
        args,
        "target-cpu"@,
    ) + named_values(args, "target-feature"@)
}

fn list_relevant_options(args: &Vec<String>) -> (list: Vec<String>)
    ensures
        list.deep_view() == relevant_options(args.deep_view()),
{
    let mut list = list_named_values(args, "debug-assertions");
    append_items(&mut list, list_named_values(args, "codegen-units"));
    append_items(&mut list, list_named_values(args, "opt-level"));
    append_items(&mut list, list_named_values(args, "overflow-checks"));
    append_items(&mut list, list_named_values(args, "panic"));
    append_items(&mut list, list_named_values(args, "target-cpu"));
    append_items(&mut list, list_named_values(args, "target-feature"));
    list
}

/// A value, where it is not empty.
pub open spec fn filled(value: Option<Seq<char>>) -> Option<Seq<char>> {
    match value {
        Some(text) => if text.len() > 0 {
            Some(text)
        } else {
            None
        },
        None => None,
    }
}

fn keep_filled(value: Option<String>) -> (kept: Option<String>)
    ensures
        kept.deep_view() == filled(value.deep_view()),
{
    match value {
        Some(text) => if same(text.as_str(), "") {
            proof {
                reveal_strlit("");
            }
            None
        } else {
            proof {
                reveal_strlit("");
                if text@.len() == 0 {
                    assert(text@ =~= ""@);
                }
            }
            Some(text)
        },
        None => None,
    }
}

/// The canonical form of a path that may be missing.
pub open spec fn canonical_option(known: Seq<CanonicalPathView>, path: Option<Seq<char>>) -> Option<
    Seq<char>,
> {
    match path {
        Some(path) => Some(canonical_form(known, path)),
        None => None,
    }
}

fn look_up_option(known: &Vec<CanonicalPath>, path: Option<String>) -> (form: Option<String>)
    ensures
        form.deep_view() == canonical_option(known.deep_view(), path.deep_view()),
{
    match path {
        Some(path) => Some(look_up(known, path.as_str())),
        None => None,
    }
}

/// The name of the crate: as asked for, else as Cargo says.
pub open spec fn crate_name_of(args: Seq<Seq<char>>, environment: DriverEnvironmentView) -> Seq<
    char,
> {
    match first_value(options_from(args, "--crate-name"@, 0)) {
        Some(name) => name,
        None => match environment.crate_name {
            Some(name) => name,
            None => "unknown"@,
        },
    }
}

/// The crate types that are asked for, in order and each once; a program where none is.
pub open spec fn crate_types_of(args: Seq<Seq<char>>) -> Seq<Seq<char>> {
    let asked = comma_parts(options_from(args, "--crate-type"@, 0));
    if asked.len() == 0 {
        seq!["bin"@]
    } else {
        ascending::<String>(asked.to_set())
    }
}

fn list_crate_types(args: &Vec<String>) -> (list: Vec<String>)
    ensures
        list.deep_view() == crate_types_of(args.deep_view()),
{
    let mut asked = split_commas(&option_values(args, "--crate-type"));
    proof {
        assert(asked.deep_view().len() == asked.len());
    }
    if asked.len() == 0 {
        push_item(&mut asked, "bin".to_owned());
        proof {
            assert(asked.deep_view() =~= seq!["bin"@]);
        }
        return asked;
    }
    sorted_unique(asked)
}

/// What is asked for by a call of the compiler.
pub open spec fn invocation_of(
    rustc_path: Seq<char>,
    args: Seq<Seq<char>>,
    environment: DriverEnvironmentView,
) -> InvocationArgsView {
    let name = crate_name_of(args, environment);
    let input = canonical_option(environment.canonical, first_where(args, is_input()));
    let out_dir = canonical_option(
        environment.canonical,
        first_value(options_from(args, "--out-dir"@, 0)),
    );
    let cfg = ascending::<String>(options_from(args, "--cfg"@, 0).to_set());
    let target = first_value(options_from(args, "--target"@, 0));
    InvocationArgsView {
        rustc_path,
        working_directory: canonical_form(environment.canonical, environment.working_directory),
        manifest_dir: canonical_option(environment.canonical, environment.manifest_dir),
        build_script_out_dir: canonical_option(
            environment.canonical,
            filled(environment.build_script_out_dir),
        ),
        package_name: environment.package_name,
        primary_package: environment.primary_package,
        crate_name: name,
        input,
        artifact: ArtifactIdentityView {
            out_dir,
            crate_name: name,
            crate_types: crate_types_of(args),
            extra_filename: filled(last_value(codegen_from(args, "extra-filename"@, 0))),
            metadata: filled(last_value(codegen_from(args, "metadata"@, 0))),
            emit: ascending::<String>(
                comma_parts(options_from(args, "--emit"@, 0)).to_set(),
            ),
        },
        target: match target {
            Some(target) => target,
            None => environment.host,
        },
        compilation_context: if target is Some {
            CompilationContext::Target
        } else {
            CompilationContext::Host
        },
        test_mode: args.contains("--test"@) || cfg.contains("test"@),
        cfg,
        relevant_codegen: relevant_options(args),
        collectible: first_value(options_from(args, "--crate-name"@, 0)) is Some && input is Some
            && out_dir is Some,
    }
}

fn find_input(args: &Vec<String>) -> (input: Option<String>)
    ensures
        input.deep_view() == first_where(args.deep_view(), is_input()),
{
    let ghost property = is_input();
    let test = |argument: &String| -> (result: bool)
        ensures
            result == property(argument.deep_view()),
    {
        !starts_with(argument.as_str(), "-") && has_extension(argument.as_str(), "rs")
    };
    match find_first(args, test, Ghost(property)) {
        Some(argument) => Some(argument.clone()),
        None => None,
    }
}

/// What separates the values in an identity that may hold commas.
pub const UNIT: &'static str = "\u{1f}";

/// A value that may be missing, or the empty text.
pub open spec fn or_empty(value: Option<Seq<char>>) -> Seq<char> {
    match value {
        Some(text) => text,
        None => Seq::empty(),
    }
}

fn text_or_empty(value: &Option<String>) -> (text: String)
    ensures
        text@ == or_empty(value.deep_view()),
{
    match value {
        Some(text) => text.clone(),
        None => no_text(),
    }
}

/// What identifies a call of the compiler across runs.
pub open spec fn merge_key_parts(invocation: InvocationArgsView) -> Seq<Seq<char>> {
    seq![
        "invocation-v3"@,
        or_empty(invocation.manifest_dir),
        or_empty(invocation.package_name),
        invocation.crate_name,
        joined(invocation.artifact.crate_types, ","@),
        or_empty(invocation.input),
        invocation.target,
        match invocation.compilation_context {
            CompilationContext::Host => "host"@,
            CompilationContext::Target => "target"@,
        },
        if invocation.test_mode {
            "true"@
        } else {
            "false"@
        },
        joined(invocation.cfg, UNIT@),
        joined(invocation.relevant_codegen, UNIT@),
        or_empty(invocation.artifact.extra_filename),
        or_empty(invocation.artifact.metadata),
        joined(invocation.artifact.emit, ","@),
    ]
}

impl InvocationArgs {
    /// Reads what a call of the compiler asks for.
    pub fn parse(
        rustc_path: String,
        args: &Vec<String>,
        environment: &DriverEnvironment,
    ) -> (invocation: InvocationArgs)
        ensures
            invocation.deep_view() == invocation_of(
                rustc_path@,
                args.deep_view(),
                environment.deep_view(),
            ),
    {
        let explicit_crate_name = option_value(args, "--crate-name");
        let named = explicit_crate_name.is_some();
        let crate_name = match explicit_crate_name {
            Some(name) => name,
            None => match &environment.crate_name {
                Some(name) => name.clone(),
                None => "unknown".to_owned(),
            },
        };
        let input = look_up_option(&environment.canonical, find_input(args));
        let out_dir = look_up_option(&environment.canonical, option_value(args, "--out-dir"));
        let emit = sorted_unique(split_commas(&option_values(args, "--emit")));
        let cfg = sorted_unique(option_values(args, "--cfg"));
        let target = option_value(args, "--target");
        let compilation_context = if target.is_some() {
            CompilationContext::Target
        } else {
            CompilationContext::Host
        };
        let test_mode = list_contains(args, "--test") || list_contains(&cfg, "test");
        let collectible = named && input.is_some() && out_dir.is_some();
        InvocationArgs {
            rustc_path,
            working_directory: look_up(
                &environment.canonical,
                environment.working_directory.as_str(),
            ),
            manifest_dir: look_up_option(
                &environment.canonical,
                copy_option(&environment.manifest_dir),
            ),
            build_script_out_dir: look_up_option(
                &environment.canonical,
                keep_filled(copy_option(&environment.build_script_out_dir)),
            ),
            package_name: copy_option(&environment.package_name),
            primary_package: environment.primary_package,
            crate_name: crate_name.clone(),
            input,
            artifact: ArtifactIdentity {
                out_dir,
                crate_name,
                crate_types: list_crate_types(args),
                extra_filename: keep_filled(codegen_value(args, "extra-filename")),
                metadata: keep_filled(codegen_value(args, "metadata")),
                emit,
            },
            target: match target {
                Some(target) => target,
                None => environment.host.clone(),
            },
            compilation_context,
            test_mode,
            cfg,
            relevant_codegen: list_relevant_options(args),
            collectible,
        }
    }

    /// Writes what identifies the call across runs.
    pub fn merge_key(&self) -> (key: InvocationMergeKey)
        ensures
            key.deep_view() == length_prefixed_text(merge_key_parts(self.deep_view())),
    {
        let mut parts: Vec<String> = no_items();
        push_item(&mut parts, "invocation-v3".to_owned());
        push_item(&mut parts, text_or_empty(&self.manifest_dir));
        push_item(&mut parts, text_or_empty(&self.package_name));
        push_item(&mut parts, self.crate_name.clone());
        push_item(&mut parts, join(&self.artifact.crate_types, ","));
        push_item(&mut parts, text_or_empty(&self.input));
        push_item(&mut parts, self.target.clone());
        push_item(
            &mut parts,
            match self.compilation_context {
                CompilationContext::Host => "host".to_owned(),
                CompilationContext::Target => "target".to_owned(),
            },
        );
        push_item(
            &mut parts,
            if self.test_mode {
                "true".to_owned()
            } else {
                "false".to_owned()
            },
        );
        push_item(&mut parts, join(&self.cfg, UNIT));
        push_item(&mut parts, join(&self.relevant_codegen, UNIT));
        push_item(&mut parts, text_or_empty(&self.artifact.extra_filename));
        push_item(&mut parts, text_or_empty(&self.artifact.metadata));
        push_item(&mut parts, join(&self.artifact.emit, ","));
        proof {
            assert(parts.deep_view() =~= merge_key_parts(self.deep_view()));
        }
        InvocationMergeKey(length_prefixed(&parts))
    }
}

fn copy_option(value: &Option<String>) -> (copy: Option<String>)
    ensures
        copy.deep_view() == value.deep_view(),
{
    match value {
        Some(text) => Some(text.clone()),
        None => None,
    }
}

/// Calls that differ in their context, target, mode or crate never share an identity.
pub proof fn law_merge_keys_tell_calls_apart(left: InvocationArgsView, right: InvocationArgsView)
    requires
        length_prefixed_text(merge_key_parts(left)) == length_prefixed_text(merge_key_parts(right)),
    ensures
        left.crate_name == right.crate_name,
        left.target == right.target,
        left.compilation_context == right.compilation_context,
        left.test_mode == right.test_mode,
        or_empty(left.manifest_dir) == or_empty(right.manifest_dir),
        or_empty(left.package_name) == or_empty(right.package_name),
        or_empty(left.input) == or_empty(right.input),
        or_empty(left.artifact.metadata) == or_empty(right.artifact.metadata),
{
    crate::driver::spans::law_length_prefixes_tell_parts_apart(
        merge_key_parts(left),
        merge_key_parts(right),
    );
    let l = merge_key_parts(left);
    let r = merge_key_parts(right);
    assert(l[1] == r[1] && l[2] == r[2] && l[3] == r[3] && l[5] == r[5] && l[6] == r[6] && l[12]
        == r[12]);
    assert(l[7] == r[7] && l[8] == r[8]);
    reveal_strlit("host");
    reveal_strlit("target");
    reveal_strlit("true");
    reveal_strlit("false");
    assert("host"@.len() != "target"@.len());
    assert("true"@.len() != "false"@.len());
}

/// The most directories that may be selected.
pub const MAX_SELECTED_MANIFEST_DIRS: usize = 4096;

/// The directories that are selected, but for empty entries.
pub open spec fn selected_dirs(known: Seq<CanonicalPathView>, allowlist: Seq<Seq<char>>) -> Seq<
    Seq<(usize, Seq<char>)>,
> {
    collected(
        allowlist,
        |path: Seq<char>|
            if path.len() > 0 {
                Some(canonical_key(known, path))
            } else {
                None
            },
    )
}

/// Whether a package is among those that are selected. Too many are as good as none.
pub open spec fn is_selected(
    known: Seq<CanonicalPathView>,
    manifest_dir: Option<Seq<char>>,
    allowlist: Option<Seq<Seq<char>>>,
) -> bool {
    match (manifest_dir, allowlist) {
        (Some(directory), Some(allowlist)) => selected_dirs(known, allowlist).len()
            <= MAX_SELECTED_MANIFEST_DIRS && selected_dirs(known, allowlist).contains(
            canonical_key(known, directory),
        ),
        _ => false,
    }
}

/// Whether a package is among those that are selected.
pub fn manifest_is_selected(
    known: &Vec<CanonicalPath>,
    manifest_dir: &Option<String>,
    allowlist: &Option<Vec<String>>,
) -> (result: bool)
    ensures
        result == is_selected(known.deep_view(), manifest_dir.deep_view(), allowlist.deep_view()),
{
    match (manifest_dir, allowlist) {
        (Some(directory), Some(allowlist)) => {
            let ghost all = known.deep_view();
            let ghost f = |path: Seq<char>|
                if path.len() > 0 {
                    Some(canonical_key(all, path))
                } else {
                    None
                };
            let pick = |path: &String| -> (key: Option<PathKey>)
                ensures
                    key.deep_view() == f(path.deep_view()),
            {
                pick_selected(known, path)
            };
            let selected = collect_items(allowlist, pick, Ghost(f));
            proof {
                assert(selected.deep_view() == selected_dirs(all, allowlist.deep_view()));
                assert(selected.deep_view().len() == selected.len());
            }
            let wanted = look_up_key(known, directory.as_str());
            let ghost told = wanted.deep_view();
            let ghost property = |key: Seq<(usize, Seq<char>)>| key == told;
            let test = |key: &PathKey| -> (result: bool)
                ensures
                    result == property(key.deep_view()),
            {
                same_key(key, &wanted)
            };
            let found = any_item(&selected, test, Ghost(property));
            proof {
                let list = selected.deep_view();
                if list.contains(told) {
                    let i = choose|i: int| 0 <= i < list.len() && list[i] == told;
                    assert(property(list[i]));
                }
                if found {
                    let i = choose|i: int| 0 <= i < list.len() && property(#[trigger] list[i]);
                    assert(list[i] == told);
                }
            }
            selected.len() <= MAX_SELECTED_MANIFEST_DIRS && found
        },
        _ => false,
    }
}

fn pick_selected(known: &Vec<CanonicalPath>, path: &String) -> (key: Option<PathKey>)
    ensures
        key.deep_view() == if path@.len() > 0 {
            Some(canonical_key(known.deep_view(), path@))
        } else {
            None::<Seq<(usize, Seq<char>)>>
        },
{
    proof {
        reveal_strlit("");
    }
    if same(path.as_str(), "") {
        None
    } else {
        proof {
            if path@.len() == 0 {
                assert(path@ =~= ""@);
            }
        }
        Some(look_up_key(known, path.as_str()))
    }
}

/// Whether a character may stand in the name of a run.
pub open spec fn is_run_char(c: char) -> bool {
    is_alphanumeric(c) || c == '-' || c == '_' || c == '.'
}

/// Whether a text may name a run: short, and without anything that a path gives a meaning.
pub open spec fn names_run(run_id: Seq<char>) -> bool {
    run_id.len() > 0 && byte_length(run_id) <= 128 && forall|i: int|
        0 <= i < run_id.len() ==> is_run_char(#[trigger] run_id[i])
}

/// Whether a text may name a run.
pub fn valid_run_id(run_id: &str) -> (result: bool)
    ensures
        result == names_run(run_id@),
{
    let chars = chars_of(run_id);
    if chars.len() == 0 || utf8_length(run_id) > 128 {
        return false;
    }
    let mut index: usize = 0;
    while index < chars.len()
        invariant
            chars@ == run_id@,
            index <= chars.len(),
            forall|i: int| 0 <= i < index ==> is_run_char(#[trigger] run_id@[i]),
        decreases chars.len() - index,
    {
        let c = chars[index];
        if !(alphanumeric(c) || c == '-' || c == '_' || c == '.') {
            proof {
                assert(!is_run_char(run_id@[index as int]));
            }
            return false;
        }
        index = index + 1;
    }
    true
}

/// A character that may stand in the name of a file.
pub open spec fn safe_char(c: char) -> char {
    if is_alphanumeric(c) || c == '-' || c == '_' {
        c
    } else {
        '_'
    }
}

/// The most characters in the name of a file.
pub const MAX_NAME_CHARS: usize = 80;

/// A text made fit for the name of a file.
pub open spec fn safe_name(value: Seq<char>) -> Seq<char> {
    if value.len() == 0 {
        "unknown"@
    } else {
        Seq::new(
            if value.len() < MAX_NAME_CHARS {
                value.len()
            } else {
                MAX_NAME_CHARS as nat
            },
            |i: int| safe_char(value[i]),
        )
    }
}

/// Makes a text fit for the name of a file.
pub fn safe_filename(value: &str) -> (name: String)
    ensures
        name@ == safe_name(value@),
{
    let chars = chars_of(value);
    if chars.len() == 0 {
        return "unknown".to_owned();
    }
    let count: usize = if chars.len() < MAX_NAME_CHARS {
        chars.len()
    } else {
        MAX_NAME_CHARS
    };
    let mut safe: Vec<char> = Vec::new();
    let mut index: usize = 0;
    while index < count
        invariant
            chars@ == value@,
            count <= chars.len(),
            index <= count,
            safe@ == Seq::new(index as nat, |i: int| safe_char(value@[i])),
        decreases count - index,
    {
        let c = chars[index];
        safe.push(
            if alphanumeric(c) || c == '-' || c == '_' {
                c
            } else {
                '_'
            },
        );
        proof {
            assert(safe@ =~= Seq::new(index as nat + 1, |i: int| safe_char(value@[i])));
        }
        index = index + 1;
    }
    let name = text_of(&safe, 0, safe.len());
    proof {
        assert(name@ =~= safe_name(value@));
    }
    name
}

/// The name of a file never leads out of its directory: it holds neither a slash nor a dot.
pub proof fn law_safe_names_hold_no_path(value: Seq<char>, index: int)
    requires
        0 <= index < safe_name(value).len(),
    ensures
        safe_name(value)[index] != '/',
        safe_name(value)[index] != '\\',
        safe_name(value)[index] != '.',
        safe_name(value).len() <= MAX_NAME_CHARS,
{
    reveal_strlit("unknown");
}

} // verus!
