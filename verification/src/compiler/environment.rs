//! The toolchain and the configuration that a run finds.

use vstd::prelude::*;

use crate::cli::{AuditCli, AuditCliView};
use crate::collections::{any_item, any_where, append_items, no_items, push_item};
use crate::compiler::sidecar::{reports, result_view};
use crate::compiler::support::{support_error, validate, SupportManifest, SupportManifestView};
use crate::protocol::{
    CompilerIdentity, CompilerIdentityView, BUILD_DIR_ENV, RUN_ID_ENV, SELECTED_MANIFEST_DIRS_ENV,
    SIDECAR_DIR_ENV, TARGET_DIR_ENV,
};
use crate::text::{
    begins_with, contains_part, debug_text, decimal, decimal_text, ends_with, has_suffix,
    holds_part, join, joined, lines_of, list_lines, list_words, quoted, same, spaces, split,
    split_on, starts_with, strip_prefix, trim, trimmed_of, without_prefix, words_of,
};

verus! {

/// The compiler that facts are collected with.
#[derive(Debug, PartialEq, Eq)]
pub struct SelectedCompiler {
    pub identity: CompilerIdentity,
    pub linked_version: String,
}

/// The model of [`SelectedCompiler`].
#[verifier::ext_equal]
pub struct SelectedCompilerView {
    pub identity: CompilerIdentityView,
    pub linked_version: Seq<char>,
}

impl DeepView for SelectedCompiler {
    type V = SelectedCompilerView;

    open spec fn deep_view(&self) -> SelectedCompilerView {
        SelectedCompilerView {
            identity: self.identity.deep_view(),
            linked_version: self.linked_version.deep_view(),
        }
    }
}

impl Clone for SelectedCompiler {
    fn clone(&self) -> (copy: Self)
        ensures
            copy.deep_view() == self.deep_view(),
    {
        let copy = SelectedCompiler {
            identity: self.identity.clone(),
            linked_version: self.linked_version.clone(),
        };
        proof {
            assert(copy.identity.deep_view() =~= self.identity.deep_view());
        }
        copy
    }
}

/// A variable of the environment that is set, perhaps to nothing.
#[derive(Debug, PartialEq, Eq)]
pub struct EnvironmentVariable {
    pub name: String,
    pub empty: bool,
}

/// The model of [`EnvironmentVariable`].
#[verifier::ext_equal]
pub struct EnvironmentVariableView {
    pub name: Seq<char>,
    pub empty: bool,
}

impl DeepView for EnvironmentVariable {
    type V = EnvironmentVariableView;

    open spec fn deep_view(&self) -> EnvironmentVariableView {
        EnvironmentVariableView {
            name: self.name.deep_view(),
            empty: self.empty,
        }
    }
}

impl Clone for EnvironmentVariable {
    fn clone(&self) -> (copy: Self)
        ensures
            copy.deep_view() == self.deep_view(),
    {
        let copy = EnvironmentVariable {
            name: self.name.clone(),
            empty: self.empty,
        };
        copy
    }
}

/// Where a run leaves what it makes, and its name.
#[derive(Debug, PartialEq, Eq)]
pub struct ArtifactPaths {
    pub target: String,
    pub build: String,
    pub events: String,
    pub run_id: String,
}

/// The model of [`ArtifactPaths`].
#[verifier::ext_equal]
pub struct ArtifactPathsView {
    pub target: Seq<char>,
    pub build: Seq<char>,
    pub events: Seq<char>,
    pub run_id: Seq<char>,
}

impl DeepView for ArtifactPaths {
    type V = ArtifactPathsView;

    open spec fn deep_view(&self) -> ArtifactPathsView {
        ArtifactPathsView {
            target: self.target.deep_view(),
            build: self.build.deep_view(),
            events: self.events.deep_view(),
            run_id: self.run_id.deep_view(),
        }
    }
}

impl Clone for ArtifactPaths {
    fn clone(&self) -> (copy: Self)
        ensures
            copy.deep_view() == self.deep_view(),
    {
        let copy = ArtifactPaths {
            target: self.target.clone(),
            build: self.build.clone(),
            events: self.events.clone(),
            run_id: self.run_id.clone(),
        };
        copy
    }
}

/// A variable of the environment of a command: what it is set to, or that it is removed.
#[derive(Debug, PartialEq, Eq)]
pub struct Setting {
    pub name: String,
    pub value: Option<String>,
}

/// The model of [`Setting`].
#[verifier::ext_equal]
pub struct SettingView {
    pub name: Seq<char>,
    pub value: Option<Seq<char>>,
}

impl DeepView for Setting {
    type V = SettingView;

    open spec fn deep_view(&self) -> SettingView {
        SettingView {
            name: self.name.deep_view(),
            value: self.value.deep_view(),
        }
    }
}

impl Clone for Setting {
    fn clone(&self) -> (copy: Self)
        ensures
            copy.deep_view() == self.deep_view(),
    {
        let copy = Setting {
            name: self.name.clone(),
            value: self.value.clone(),
        };
        proof {
            assert(copy.value.deep_view() =~= self.value.deep_view());
        }
        copy
    }
}

/// What stands behind a name and a colon on a line.
pub open spec fn field_on(line: Seq<char>, name: Seq<char>) -> Option<Seq<char>> {
    match without_prefix(line, name) {
        Some(rest) => match without_prefix(rest, ":"@) {
            Some(value) => Some(trimmed_of(value, spaces())),
            None => None,
        },
        None => None,
    }
}

/// The first field of a name on the lines from a place on.
pub open spec fn field_from(lines: Seq<Seq<char>>, name: Seq<char>, from: int) -> Option<Seq<char>>
    decreases lines.len() - from,
{
    if from >= lines.len() {
        None
    } else {
        match field_on(lines[from], name) {
            Some(value) => Some(value),
            None => field_from(lines, name, from + 1),
        }
    }
}

/// The field of a name in what a compiler says of itself.
pub open spec fn field_of(text: Seq<char>, name: Seq<char>) -> Option<Seq<char>> {
    field_from(lines_of(text), name, 0)
}

/// Finds the field of a name in what a compiler says of itself.
pub fn field(text: &str, name: &str) -> (value: Option<String>)
    ensures
        value.deep_view() == field_of(text@, name@),
{
    let lines = list_lines(text);
    let ghost all = lines.deep_view();
    let mut at: usize = 0;
    while at < lines.len()
        invariant
            all == lines.deep_view(),
            all == lines_of(text@),
            at <= all.len(),
            field_of(text@, name@) == field_from(all, name@, at as int),
        decreases all.len() - at,
    {
        proof {
            assert(all[at as int] == lines[at as int]@);
        }
        if let Some(rest) = strip_prefix(lines[at].as_str(), name) {
            if let Some(value) = strip_prefix(rest.as_str(), ":") {
                return Some(trim(value.as_str()));
            }
        }
        at = at + 1;
    }
    None
}

/// What a compiler is linked as, by its first line.
pub open spec fn linked_version_of(text: Seq<char>) -> Option<Seq<char>> {
    let lines = lines_of(text);
    if lines.len() == 0 {
        None
    } else {
        without_prefix(lines[0], "rustc "@)
    }
}

pub(crate) fn find_linked_version(text: &str) -> (version: Option<String>)
    ensures
        version.deep_view() == linked_version_of(text@),
{
    let lines = list_lines(text);
    proof {
        assert(lines.deep_view().len() == lines.len());
    }
    if lines.len() == 0 {
        return None;
    }
    proof {
        assert(lines.deep_view()[0] == lines[0]@);
    }
    strip_prefix(lines[0].as_str(), "rustc ")
}

/// What is missing from what a compiler says of itself.
pub open spec fn version_error(text: Seq<char>) -> Option<Seq<char>> {
    if linked_version_of(text) is None {
        Some("rustc -Vv omitted its version header"@)
    } else if field_of(text, "release"@) is None {
        Some("rustc -Vv omitted release"@)
    } else if field_of(text, "commit-hash"@) is None {
        Some("rustc -Vv omitted commit-hash"@)
    } else if field_of(text, "commit-date"@) is None {
        Some("rustc -Vv omitted commit-date"@)
    } else if field_of(text, "host"@) is None {
        Some("rustc -Vv omitted host"@)
    } else {
        None
    }
}

/// The compiler that says something of itself.
pub open spec fn compiler_of(text: Seq<char>) -> SelectedCompilerView {
    SelectedCompilerView {
        identity: CompilerIdentityView {
            release: field_of(text, "release"@)->0,
            commit_hash: field_of(text, "commit-hash"@)->0,
            commit_date: field_of(text, "commit-date"@)->0,
            host: field_of(text, "host"@)->0,
        },
        linked_version: linked_version_of(text)->0,
    }
}

/// What is wrong with a compiler, by what it says of itself.
pub open spec fn selection_error(manifest: SupportManifestView, text: Seq<char>) -> Option<Seq<char>> {
    match version_error(text) {
        Some(message) => Some(message),
        None => support_error(manifest, compiler_of(text).identity),
    }
}

/// Reads what a compiler says of itself, and checks that it is supported.
pub fn selected_compiler(manifest: &SupportManifest, verbose: &str) -> (result: Result<
    SelectedCompiler,
    String,
>)
    ensures
        reports(result, selection_error(manifest.deep_view(), verbose@)),
        result matches Ok(compiler) ==> compiler.deep_view() == compiler_of(verbose@),
{
    let linked_version = match find_linked_version(verbose) {
        Some(version) => version,
        None => return Err("rustc -Vv omitted its version header".to_owned()),
    };
    let release = match field(verbose, "release") {
        Some(value) => value,
        None => return Err("rustc -Vv omitted release".to_owned()),
    };
    let commit_hash = match field(verbose, "commit-hash") {
        Some(value) => value,
        None => return Err("rustc -Vv omitted commit-hash".to_owned()),
    };
    let commit_date = match field(verbose, "commit-date") {
        Some(value) => value,
        None => return Err("rustc -Vv omitted commit-date".to_owned()),
    };
    let host = match field(verbose, "host") {
        Some(value) => value,
        None => return Err("rustc -Vv omitted host".to_owned()),
    };
    let identity = CompilerIdentity { release, commit_hash, commit_date, host };
    if let Err(message) = validate(manifest, &identity) {
        return Err(message);
    }
    Ok(SelectedCompiler { identity, linked_version })
}

/// A value of a configuration.
#[derive(Debug, PartialEq, Eq)]
pub enum ConfigValue {
    Null,
    Bool(bool),
    Number(String),
    Text(String),
    List(Vec<ConfigValue>),
    Table(Vec<(String, ConfigValue)>),
}

/// The model of [`ConfigValue`].
pub enum ConfigValueView {
    Null,
    Bool(bool),
    Number(Seq<char>),
    Text(Seq<char>),
    List(Seq<ConfigValueView>),
    Table(Seq<(Seq<char>, ConfigValueView)>),
}

/// The model of a value.
pub open spec fn config_view(value: ConfigValue) -> ConfigValueView
    decreases value,
{
    match value {
        ConfigValue::Null => ConfigValueView::Null,
        ConfigValue::Bool(flag) => ConfigValueView::Bool(flag),
        ConfigValue::Number(text) => ConfigValueView::Number(text@),
        ConfigValue::Text(text) => ConfigValueView::Text(text@),
        ConfigValue::List(items) => ConfigValueView::List(configs_view(items@)),
        ConfigValue::Table(entries) => ConfigValueView::Table(entries_view(entries@)),
    }
}

/// The models of some values.
pub open spec fn configs_view(items: Seq<ConfigValue>) -> Seq<ConfigValueView>
    decreases items,
{
    if items.len() == 0 {
        Seq::empty()
    } else {
        configs_view(items.drop_last()).push(config_view(items.last()))
    }
}

/// The models of some values under their names.
pub open spec fn entries_view(entries: Seq<(String, ConfigValue)>) -> Seq<
    (Seq<char>, ConfigValueView),
>
    decreases entries,
{
    if entries.len() == 0 {
        Seq::empty()
    } else {
        entries_view(entries.drop_last()).push(
            (entries.last().0@, config_view(entries.last().1)),
        )
    }
}

impl DeepView for ConfigValue {
    type V = ConfigValueView;

    open spec fn deep_view(&self) -> ConfigValueView {
        config_view(*self)
    }
}

proof fn lemma_configs_view(items: Seq<ConfigValue>)
    ensures
        configs_view(items).len() == items.len(),
        forall|i: int|
            0 <= i < items.len() ==> #[trigger] configs_view(items)[i] == config_view(items[i]),
    decreases items.len(),
{
    if items.len() > 0 {
        lemma_configs_view(items.drop_last());
    }
}

proof fn lemma_entries_view(entries: Seq<(String, ConfigValue)>)
    ensures
        entries_view(entries).len() == entries.len(),
        forall|i: int|
            0 <= i < entries.len() ==> #[trigger] entries_view(entries)[i] == (
                entries[i].0@,
                config_view(entries[i].1),
            ),
    decreases entries.len(),
{
    if entries.len() > 0 {
        lemma_entries_view(entries.drop_last());
    }
}

/// The value that bytes of JSON stand for, where they stand for one.
pub uninterp spec fn json_value(bytes: Seq<u8>) -> Option<ConfigValueView>;

/// A value as `serde_json` reads it.
#[verifier::external_type_specification]
#[verifier::external_body]
pub struct ExValue(serde_json::Value);

/// Reads a value with `serde_json::from_slice`. Which one it is depends on the bytes alone; how
/// JSON is read is left unsaid.
#[verifier::external_body]
fn parse_json(bytes: &Vec<u8>) -> (value: Option<ConfigValue>)
    ensures
        value.deep_view() == json_value(bytes@),
{
    match serde_json::from_slice::<serde_json::Value>(bytes) {
        Ok(value) => Some(convert_value(value)),
        Err(_) => None,
    }
}

/// Takes a value of `serde_json` apart, for [`parse_json`].
#[verifier::external_body]
fn convert_value(value: serde_json::Value) -> ConfigValue {
    match value {
        serde_json::Value::Null => ConfigValue::Null,
        serde_json::Value::Bool(flag) => ConfigValue::Bool(flag),
        serde_json::Value::Number(number) => ConfigValue::Number(number.to_string()),
        serde_json::Value::String(text) => ConfigValue::Text(text),
        serde_json::Value::Array(items) => ConfigValue::List(
            items.into_iter().map(convert_value).collect(),
        ),
        serde_json::Value::Object(entries) => ConfigValue::Table(
            entries.into_iter().map(|entry| (entry.0, convert_value(entry.1))).collect(),
        ),
    }
}

/// What bytes stand for when all that is no UTF-8 in them is replaced.
pub uninterp spec fn lossy_text(bytes: Seq<u8>) -> Seq<char>;

/// Reads bytes as text with `String::from_utf8_lossy`, which replaces what is no UTF-8. The text
/// depends on the bytes alone; where replacements stand is left unsaid.
#[verifier::external_body]
pub(crate) fn read_lossy(bytes: &Vec<u8>) -> (text: String)
    ensures
        text@ == lossy_text(bytes@),
{
    String::from_utf8_lossy(bytes).into_owned()
}

/// The place of a name among entries, from a place on; their number where it is none of theirs.
pub open spec fn entry_place(
    entries: Seq<(Seq<char>, ConfigValueView)>,
    name: Seq<char>,
    from: int,
) -> int
    decreases entries.len() - from,
{
    if from >= entries.len() {
        entries.len() as int
    } else if entries[from].0 == name {
        from
    } else {
        entry_place(entries, name, from + 1)
    }
}

/// The value under a name.
pub open spec fn value_under(value: ConfigValueView, name: Seq<char>) -> Option<ConfigValueView> {
    match value {
        ConfigValueView::Table(entries) => if entry_place(entries, name, 0) < entries.len() {
            Some(entries[entry_place(entries, name, 0)].1)
        } else {
            None
        },
        _ => None,
    }
}

/// The value under names, from a place on, each in the table of the one before it.
pub open spec fn value_at(value: ConfigValueView, names: Seq<Seq<char>>, from: int) -> Option<
    ConfigValueView,
>
    decreases names.len() - from,
{
    if from >= names.len() {
        Some(value)
    } else {
        match value_under(value, names[from]) {
            Some(inner) => value_at(inner, names, from + 1),
            None => None,
        }
    }
}

fn take_under(value: ConfigValue, name: &str) -> (inner: Option<ConfigValue>)
    ensures
        inner.deep_view() == value_under(value.deep_view(), name@),
{
    let mut entries = match value {
        ConfigValue::Table(entries) => entries,
        _ => return None,
    };
    let ghost all = entries_view(entries@);
    proof {
        lemma_entries_view(entries@);
    }
    let mut at: usize = 0;
    while at < entries.len()
        invariant
            all == entries_view(entries@),
            all.len() == entries.len(),
            forall|i: int|
                0 <= i < entries.len() ==> #[trigger] all[i] == (
                    entries[i].0@,
                    config_view(entries[i].1),
                ),
            value.deep_view() == ConfigValueView::Table(all),
            at <= all.len(),
            entry_place(all, name@, 0) == entry_place(all, name@, at as int),
        decreases all.len() - at,
    {
        proof {
            assert(all[at as int].0 == entries[at as int].0@);
        }
        if same(entries[at].0.as_str(), name) {
            let entry = entries.remove(at);
            return Some(entry.1);
        }
        at = at + 1;
    }
    None
}

/// What a query of the configuration comes to: nothing, where Cargo says that it is not set.
pub open spec fn config_error(
    success: bool,
    stdout: Seq<u8>,
    stderr: Seq<u8>,
    key: Seq<char>,
) -> Option<Seq<char>> {
    if !success {
        if holds_part(lossy_text(stderr), "is not set"@) {
            None
        } else {
            Some(
                "cannot query Cargo configuration "@ + key + ": "@ + trimmed_of(
                    lossy_text(stderr),
                    spaces(),
                ),
            )
        }
    } else {
        match json_value(stdout) {
            None => Some("Cargo config JSON was malformed"@),
            Some(value) => if value_at(value, split_on(key, '.'), 0) is None {
                Some("Cargo config JSON omitted "@ + key)
            } else {
                None
            },
        }
    }
}

/// The value that a query of the configuration gives.
pub open spec fn config_of(success: bool, stdout: Seq<u8>, key: Seq<char>) -> Option<
    ConfigValueView,
> {
    if success {
        value_at(json_value(stdout)->0, split_on(key, '.'), 0)
    } else {
        None
    }
}

/// Finds the value of a key in a configuration.
pub fn config_at(value: ConfigValue, key: &str) -> (result: Result<ConfigValue, String>)
    ensures
        match result {
            Ok(inner) => value_at(value.deep_view(), split_on(key@, '.'), 0) == Some(
                inner.deep_view(),
            ),
            Err(message) => value_at(value.deep_view(), split_on(key@, '.'), 0) is None
                && message@ == "Cargo config JSON omitted "@ + key@,
        },
{
    let names = split(key, '.');
    let ghost all = names.deep_view();
    let ghost whole = value.deep_view();
    let mut current = value;
    let mut at: usize = 0;
    while at < names.len()
        invariant
            all == names.deep_view(),
            all == split_on(key@, '.'),
            at <= all.len(),
            whole == value.deep_view(),
            value_at(whole, all, 0) == value_at(current.deep_view(), all, at as int),
        decreases all.len() - at,
    {
        proof {
            assert(all[at as int] == names[at as int]@);
        }
        match take_under(current, names[at].as_str()) {
            Some(inner) => {
                current = inner;
            },
            None => {
                let mut message = "Cargo config JSON omitted ".to_owned();
                message.append(key);
                return Err(message);
            },
        }
        at = at + 1;
    }
    Ok(current)
}

/// Reads what Cargo answers to a query of its configuration.
pub fn cargo_config_json(success: bool, stdout: &Vec<u8>, stderr: &Vec<u8>, key: &str) -> (result:
    Result<Option<ConfigValue>, String>)
    ensures
        reports(result, config_error(success, stdout@, stderr@, key@)),
        result matches Ok(value) ==> value.deep_view() == config_of(success, stdout@, key@),
{
    if !success {
        let text = read_lossy(stderr);
        if contains_part(text.as_str(), "is not set") {
            return Ok(None);
        }
        let mut message = "cannot query Cargo configuration ".to_owned();
        message.append(key);
        message.append(": ");
        message.append(trim(text.as_str()).as_str());
        return Err(message);
    }
    let value = match parse_json(stdout) {
        Some(value) => value,
        None => return Err("Cargo config JSON was malformed".to_owned()),
    };
    match config_at(value, key) {
        Ok(inner) => Ok(Some(inner)),
        Err(message) => Err(message),
    }
}

/// Reads a text of the configuration. An empty one counts as none.
pub fn cargo_config(value: &Option<ConfigValue>, key: &str) -> (result: Result<
    Option<String>,
    String,
>)
    ensures
        match (value.deep_view(), result) {
            (None, Ok(found)) => found is None,
            (Some(ConfigValueView::Text(text)), Ok(found)) => found.deep_view() == if text.len()
                == 0 {
                None
            } else {
                Some(text)
            },
            (None, Err(_)) => false,
            (Some(ConfigValueView::Text(_)), Err(_)) => false,
            (Some(_), Ok(_)) => false,
            (Some(_), Err(message)) => message@ == "Cargo config "@ + key@ + " is not a string"@,
        },
{
    match value {
        None => Ok(None),
        Some(ConfigValue::Text(text)) => if is_empty(text.as_str()) {
            Ok(None)
        } else {
            Ok(Some(text.clone()))
        },
        Some(_) => {
            let mut message = "Cargo config ".to_owned();
            message.append(key);
            message.append(" is not a string");
            Err(message)
        },
    }
}

fn is_empty(text: &str) -> (result: bool)
    ensures
        result == (text@.len() == 0),
{
    proof {
        reveal_strlit("");
        if text@.len() == 0 {
            assert(text@ =~= ""@);
        }
    }
    same(text, "")
}

/// The one target that a configuration names.
pub open spec fn target_of(value: ConfigValueView) -> Result<Seq<char>, Seq<char>> {
    match value {
        ConfigValueView::Text(target) => if target.len() > 0 {
            Ok(target)
        } else {
            Err("Cargo build.target is neither a target string nor an array"@)
        },
        ConfigValueView::List(targets) => if targets.len() == 1 {
            match targets[0] {
                ConfigValueView::Text(target) => if target.len() > 0 {
                    Ok(target)
                } else {
                    Err("Cargo build.target contains an empty or non-string target"@)
                },
                _ => Err("Cargo build.target contains an empty or non-string target"@),
            }
        } else {
            Err(
                "visibility audit requires one effective Cargo build.target, found "@ + decimal(
                    targets.len(),
                ),
            )
        },
        _ => Err("Cargo build.target is neither a target string nor an array"@),
    }
}

/// Reads the one target that a configuration names.
pub fn configured_target(value: &ConfigValue) -> (result: Result<String, String>)
    ensures
        result_view(result) == target_of(value.deep_view()),
{
    match value {
        ConfigValue::Text(target) => if is_empty(target.as_str()) {
            Err("Cargo build.target is neither a target string nor an array".to_owned())
        } else {
            Ok(target.clone())
        },
        ConfigValue::List(targets) => {
            proof {
                lemma_configs_view(targets@);
            }
            if targets.len() == 1 {
                proof {
                    assert(configs_view(targets@)[0] == config_view(targets@[0]));
                }
                match &targets[0] {
                    ConfigValue::Text(target) => if is_empty(target.as_str()) {
                        Err(
                            "Cargo build.target contains an empty or non-string target".to_owned(),
                        )
                    } else {
                        Ok(target.clone())
                    },
                    _ => Err(
                        "Cargo build.target contains an empty or non-string target".to_owned(),
                    ),
                }
            } else {
                let mut message =
                    "visibility audit requires one effective Cargo build.target, found ".to_owned();
                message.append(decimal_text(targets.len() as u128).as_str());
                Err(message)
            }
        },
        _ => Err("Cargo build.target is neither a target string nor an array".to_owned()),
    }
}

/// The target that is audited, where the compiler need not be asked: the requested one, or else the
/// configured one.
pub open spec fn chosen_target(
    requested: Option<Seq<char>>,
    configured: Option<ConfigValueView>,
) -> Option<Result<Seq<char>, Seq<char>>> {
    match requested {
        Some(target) => Some(Ok(target)),
        None => match configured {
            Some(value) => Some(target_of(value)),
            None => None,
        },
    }
}

/// The target that is audited. Without a requested or configured one it is the host of the compiler,
/// by what it says of itself.
pub open spec fn audited_target(
    requested: Option<Seq<char>>,
    configured: Option<ConfigValueView>,
    verbose: Seq<char>,
) -> Result<Seq<char>, Seq<char>> {
    match chosen_target(requested, configured) {
        Some(result) => result,
        None => match field_of(verbose, "host"@) {
            Some(host) => Ok(host),
            None => Err("rustc -vV omitted host"@),
        },
    }
}

/// Chooses the target that is audited, where the compiler need not be asked.
pub fn choose_target(requested: &Option<String>, configured: &Option<ConfigValue>) -> (result:
    Option<Result<String, String>>)
    ensures
        match result {
            Some(result) => chosen_target(requested.deep_view(), configured.deep_view()) == Some(
                result_view(result),
            ),
            None => chosen_target(requested.deep_view(), configured.deep_view()) is None,
        },
{
    match requested {
        Some(target) => Some(Ok(target.clone())),
        None => match configured {
            Some(value) => Some(configured_target(value)),
            None => None,
        },
    }
}

/// Finds the target that is audited.
pub fn effective_target(
    requested: &Option<String>,
    configured: &Option<ConfigValue>,
    verbose: &str,
) -> (result: Result<String, String>)
    ensures
        result_view(result) == audited_target(
            requested.deep_view(),
            configured.deep_view(),
            verbose@,
        ),
{
    match choose_target(requested, configured) {
        Some(result) => result,
        None => match field(verbose, "host") {
            Some(host) => Ok(host),
            None => Err("rustc -vV omitted host".to_owned()),
        },
    }
}

/// The texts among the first values of a list, where all of them are texts.
pub open spec fn texts_of(items: Seq<ConfigValueView>) -> Option<Seq<Seq<char>>>
    decreases items.len(),
{
    if items.len() == 0 {
        Some(Seq::empty())
    } else {
        match (texts_of(items.drop_last()), items.last()) {
            (Some(texts), ConfigValueView::Text(text)) => Some(texts.push(text)),
            _ => None,
        }
    }
}

/// The flags for the compiler that a configuration names.
pub open spec fn flags_of(value: Option<ConfigValueView>) -> Result<Seq<Seq<char>>, Seq<char>> {
    match value {
        None => Ok(Seq::empty()),
        Some(ConfigValueView::Text(flags)) => Ok(words_of(flags)),
        Some(ConfigValueView::List(flags)) => match texts_of(flags) {
            Some(texts) => Ok(texts),
            None => Err("Cargo build.rustflags contains a non-string value"@),
        },
        Some(_) => Err("Cargo build.rustflags is neither a string nor an array"@),
    }
}

proof fn lemma_texts_of(items: Seq<ConfigValueView>, count: int)
    requires
        0 <= count <= items.len(),
        texts_of(items.take(count)) is None,
    ensures
        texts_of(items) is None,
    decreases items.len() - count,
{
    if count < items.len() {
        assert(items.take(count + 1).drop_last() =~= items.take(count));
        lemma_texts_of(items, count + 1);
    } else {
        assert(items.take(count) =~= items);
    }
}

fn list_texts(items: &Vec<ConfigValue>) -> (texts: Option<Vec<String>>)
    ensures
        texts.deep_view() == texts_of(configs_view(items@)),
{
    let ghost all = configs_view(items@);
    let mut texts: Vec<String> = no_items();
    let mut at: usize = 0;
    proof {
        lemma_configs_view(items@);
        assert(all.take(0) =~= Seq::<ConfigValueView>::empty());
    }
    while at < items.len()
        invariant
            all == configs_view(items@),
            all.len() == items.len(),
            forall|i: int| 0 <= i < items.len() ==> #[trigger] all[i] == config_view(items[i]),
            at <= all.len(),
            texts_of(all.take(at as int)) == Some(texts.deep_view()),
        decreases all.len() - at,
    {
        proof {
            assert(all.take(at as int + 1).drop_last() =~= all.take(at as int));
            assert(all[at as int] == config_view(items[at as int]));
        }
        match &items[at] {
            ConfigValue::Text(text) => {
                push_item(&mut texts, text.clone());
            },
            _ => {
                proof {
                    lemma_texts_of(all, at as int + 1);
                }
                return None;
            },
        }
        at = at + 1;
    }
    proof {
        assert(all.take(all.len() as int) =~= all);
    }
    Some(texts)
}

/// Lists the flags for the compiler that a configuration names.
pub fn configured_build_rustflags(value: &Option<ConfigValue>) -> (result: Result<
    Vec<String>,
    String,
>)
    ensures
        result_view(result) == flags_of(value.deep_view()),
{
    match value {
        None => Ok(no_items()),
        Some(ConfigValue::Text(flags)) => Ok(list_words(flags.as_str())),
        Some(ConfigValue::List(flags)) => match list_texts(flags) {
            Some(texts) => Ok(texts),
            None => Err("Cargo build.rustflags contains a non-string value".to_owned()),
        },
        Some(_) => Err("Cargo build.rustflags is neither a string nor an array".to_owned()),
    }
}

/// Whether a name occurs in a value, at any depth.
pub open spec fn holds_name(value: ConfigValueView, name: Seq<char>) -> bool
    decreases value,
{
    match value {
        ConfigValueView::Table(entries) => entries_hold_name(entries, name),
        ConfigValueView::List(items) => items_hold_name(items, name),
        _ => false,
    }
}

/// Whether a name occurs in some values, at any depth.
pub open spec fn items_hold_name(items: Seq<ConfigValueView>, name: Seq<char>) -> bool
    decreases items,
{
    items.len() > 0 && (items_hold_name(items.drop_last(), name) || holds_name(items.last(), name))
}

/// Whether a name occurs among entries or in their values, at any depth.
pub open spec fn entries_hold_name(
    entries: Seq<(Seq<char>, ConfigValueView)>,
    name: Seq<char>,
) -> bool
    decreases entries,
{
    entries.len() > 0 && (entries_hold_name(entries.drop_last(), name) || entries.last().0 == name
        || holds_name(entries.last().1, name))
}

/// Tells whether a name occurs in a value, at any depth.
pub fn contains_key(value: &ConfigValue, name: &str) -> (found: bool)
    ensures
        found == holds_name(value.deep_view(), name@),
    decreases value,
{
    match value {
        ConfigValue::Table(entries) => entries_contain_key(entries, name),
        ConfigValue::List(items) => items_contain_key(items, name),
        _ => false,
    }
}

fn items_contain_key(items: &Vec<ConfigValue>, name: &str) -> (found: bool)
    ensures
        found == items_hold_name(configs_view(items@), name@),
    decreases items,
{
    let mut found = false;
    let mut at: usize = 0;
    while at < items.len()
        invariant
            at <= items.len(),
            found == items_hold_name(configs_view(items@.take(at as int)), name@),
        decreases items.len() - at,
    {
        proof {
            let longer = items@.take(at as int + 1);
            assert(longer.drop_last() =~= items@.take(at as int));
            let list = configs_view(longer);
            assert(list.drop_last() =~= configs_view(items@.take(at as int)));
            assert(list.last() == config_view(items@[at as int]));
            assert(decreases_to!(items => items@[at as int]));
        }
        if contains_key(&items[at], name) {
            found = true;
        }
        at = at + 1;
    }
    proof {
        assert(items@.take(items.len() as int) =~= items@);
    }
    found
}

fn entries_contain_key(entries: &Vec<(String, ConfigValue)>, name: &str) -> (found: bool)
    ensures
        found == entries_hold_name(entries_view(entries@), name@),
    decreases entries,
{
    let mut found = false;
    let mut at: usize = 0;
    while at < entries.len()
        invariant
            at <= entries.len(),
            found == entries_hold_name(entries_view(entries@.take(at as int)), name@),
        decreases entries.len() - at,
    {
        proof {
            let longer = entries@.take(at as int + 1);
            assert(longer.drop_last() =~= entries@.take(at as int));
            let list = entries_view(longer);
            assert(list.drop_last() =~= entries_view(entries@.take(at as int)));
            assert(list.last() == (entries@[at as int].0@, config_view(entries@[at as int].1)));
            assert(decreases_to!(entries => entries@[at as int]));
        }
        let entry = &entries[at];
        if same(entry.0.as_str(), name) || contains_key(&entry.1, name) {
            found = true;
        }
        at = at + 1;
    }
    proof {
        assert(entries@.take(entries.len() as int) =~= entries@);
    }
    found
}

/// Whether flags are configured for single targets.
pub open spec fn has_target_flags(value: Option<ConfigValueView>) -> bool {
    match value {
        Some(value) => holds_name(value, "rustflags"@),
        None => false,
    }
}

/// Tells whether flags are configured for single targets.
pub fn cargo_target_rustflags_configured(value: &Option<ConfigValue>) -> (result: bool)
    ensures
        result == has_target_flags(value.deep_view()),
{
    match value {
        Some(value) => contains_key(value, "rustflags"),
        None => false,
    }
}

/// Whether a variable is set.
pub open spec fn is_set(variables: Seq<EnvironmentVariableView>, name: Seq<char>) -> bool {
    any_where(variables, |variable: EnvironmentVariableView| variable.name == name)
}

/// Whether a variable is set to something.
pub open spec fn is_filled(variables: Seq<EnvironmentVariableView>, name: Seq<char>) -> bool {
    any_where(
        variables,
        |variable: EnvironmentVariableView| variable.name == name && !variable.empty,
    )
}

fn variable_is_set(variables: &Vec<EnvironmentVariable>, name: &str) -> (result: bool)
    ensures
        result == is_set(variables.deep_view(), name@),
{
    let ghost property = |variable: EnvironmentVariableView| variable.name == name@;
    let test = |variable: &EnvironmentVariable| -> (result: bool)
        ensures
            result == property(variable.deep_view()),
    {
        same(variable.name.as_str(), name)
    };
    any_item(variables, test, Ghost(property))
}

fn variable_is_filled(variables: &Vec<EnvironmentVariable>, name: &str) -> (result: bool)
    ensures
        result == is_filled(variables.deep_view(), name@),
{
    let ghost property = |variable: EnvironmentVariableView|
        variable.name == name@ && !variable.empty;
    let test = |variable: &EnvironmentVariable| -> (result: bool)
        ensures
            result == property(variable.deep_view()),
    {
        same(variable.name.as_str(), name) && !variable.empty
    };
    any_item(variables, test, Ghost(property))
}

/// What is said of a variable that names another compiler.
pub open spec fn compiler_override(name: Seq<char>) -> Seq<char> {
    "visibility audit rejects "@ + name + "; it must use the exact selected rustc"@
}

/// What is said of a variable that names a wrapper for the compiler.
pub open spec fn wrapper_override(name: Seq<char>) -> Seq<char> {
    "visibility audit cannot compose the existing workspace wrapper in "@ + name
}

/// What is wrong with an environment.
pub open spec fn environment_error(variables: Seq<EnvironmentVariableView>) -> Option<Seq<char>> {
    if is_set(variables, "RUSTC"@) {
        Some(compiler_override("RUSTC"@))
    } else if is_set(variables, "CARGO_BUILD_RUSTC"@) {
        Some(compiler_override("CARGO_BUILD_RUSTC"@))
    } else if is_filled(variables, "RUSTC_WORKSPACE_WRAPPER"@) {
        Some(wrapper_override("RUSTC_WORKSPACE_WRAPPER"@))
    } else if is_filled(variables, "CARGO_BUILD_RUSTC_WORKSPACE_WRAPPER"@) {
        Some(wrapper_override("CARGO_BUILD_RUSTC_WORKSPACE_WRAPPER"@))
    } else {
        None
    }
}

fn write_compiler_override(name: &str) -> (text: String)
    ensures
        text@ == compiler_override(name@),
{
    let mut text = "visibility audit rejects ".to_owned();
    text.append(name);
    text.append("; it must use the exact selected rustc");
    text
}

fn write_wrapper_override(name: &str) -> (text: String)
    ensures
        text@ == wrapper_override(name@),
{
    let mut text = "visibility audit cannot compose the existing workspace wrapper in ".to_owned();
    text.append(name);
    text
}

/// Checks that no variable of the environment names another compiler or a wrapper for it.
pub fn reject_compiler_overrides(variables: &Vec<EnvironmentVariable>) -> (result: Result<
    (),
    String,
>)
    ensures
        reports(result, environment_error(variables.deep_view())),
{
    if variable_is_set(variables, "RUSTC") {
        Err(write_compiler_override("RUSTC"))
    } else if variable_is_set(variables, "CARGO_BUILD_RUSTC") {
        Err(write_compiler_override("CARGO_BUILD_RUSTC"))
    } else if variable_is_filled(variables, "RUSTC_WORKSPACE_WRAPPER") {
        Err(write_wrapper_override("RUSTC_WORKSPACE_WRAPPER"))
    } else if variable_is_filled(variables, "CARGO_BUILD_RUSTC_WORKSPACE_WRAPPER") {
        Err(write_wrapper_override("CARGO_BUILD_RUSTC_WORKSPACE_WRAPPER"))
    } else {
        Ok(())
    }
}

/// What is wrong with a compiler or a wrapper for it in the configuration.
pub open spec fn configured_override(key: Seq<char>, value: Option<Seq<char>>) -> Option<Seq<char>> {
    match value {
        Some(value) => Some("visibility audit rejects Cargo "@ + key + "="@ + debug_text(value)),
        None => None,
    }
}

/// Checks that the configuration names no compiler or wrapper for it under a key.
pub fn reject_configured(key: &str, value: &Option<String>) -> (result: Result<(), String>)
    ensures
        reports(result, configured_override(key@, value.deep_view())),
{
    match value {
        Some(value) => {
            let mut message = "visibility audit rejects Cargo ".to_owned();
            message.append(key);
            message.append("=");
            message.append(quoted(value.as_str()).as_str());
            Err(message)
        },
        None => Ok(()),
    }
}

/// Tells whether a wrapper for all compilers is set in the environment or, as far as it is known, in
/// the configuration.
pub fn ordinary_wrapper_configured(
    variables: &Vec<EnvironmentVariable>,
    configured: &Option<String>,
) -> (result: bool)
    ensures
        result == (is_filled(variables.deep_view(), "RUSTC_WRAPPER"@) || is_filled(
            variables.deep_view(),
            "CARGO_BUILD_RUSTC_WRAPPER"@,
        ) || configured is Some),
{
    variable_is_filled(variables, "RUSTC_WRAPPER") || variable_is_filled(
        variables,
        "CARGO_BUILD_RUSTC_WRAPPER",
    ) || configured.is_some()
}

/// Whether a variable of the environment sets flags for the compiler.
pub open spec fn sets_flags(name: Seq<char>) -> bool {
    name == "RUSTFLAGS"@ || name == "CARGO_ENCODED_RUSTFLAGS"@ || name == "CARGO_BUILD_RUSTFLAGS"@
        || begins_with(name, "CARGO_TARGET_"@) && has_suffix(name, "_RUSTFLAGS"@)
}

/// Tells whether no variable of the environment sets flags for the compiler.
pub fn custom_cfg_environment_is_safe(variables: &Vec<EnvironmentVariable>) -> (safe: bool)
    ensures
        safe == !any_where(
            variables.deep_view(),
            |variable: EnvironmentVariableView| sets_flags(variable.name),
        ),
{
    let ghost property = |variable: EnvironmentVariableView| sets_flags(variable.name);
    let test = |variable: &EnvironmentVariable| -> (result: bool)
        ensures
            result == property(variable.deep_view()),
    {
        let name = variable.name.as_str();
        same(name, "RUSTFLAGS") || same(name, "CARGO_ENCODED_RUSTFLAGS") || same(
            name,
            "CARGO_BUILD_RUSTFLAGS",
        ) || starts_with(name, "CARGO_TARGET_") && ends_with(name, "_RUSTFLAGS")
    };
    !any_item(variables, test, Ghost(property))
}

/// The arguments of `rustup` that run a program of a toolchain.
pub open spec fn toolchain_arguments_of(toolchain: Seq<char>, program: Seq<char>) -> Seq<Seq<char>> {
    seq!["run"@, toolchain, program]
}

/// Lists the arguments of `rustup` that run a program of a toolchain.
pub fn toolchain_arguments(toolchain: &str, program: &str) -> (arguments: Vec<String>)
    ensures
        arguments.deep_view() == toolchain_arguments_of(toolchain@, program@),
{
    let mut arguments: Vec<String> = no_items();
    push_item(&mut arguments, "run".to_owned());
    push_item(&mut arguments, toolchain.to_owned());
    push_item(&mut arguments, program.to_owned());
    proof {
        assert(arguments.deep_view() =~= toolchain_arguments_of(toolchain@, program@));
    }
    arguments
}

/// The arguments of Cargo that ask for a key of its configuration.
pub open spec fn config_arguments_of(key: Seq<char>) -> Seq<Seq<char>> {
    seq!["-Z"@, "unstable-options"@, "config"@, "get"@, key, "--format=json"@]
}

/// Lists the arguments of Cargo that ask for a key of its configuration.
pub fn config_arguments(key: &str) -> (arguments: Vec<String>)
    ensures
        arguments.deep_view() == config_arguments_of(key@),
{
    let mut arguments: Vec<String> = no_items();
    push_item(&mut arguments, "-Z".to_owned());
    push_item(&mut arguments, "unstable-options".to_owned());
    push_item(&mut arguments, "config".to_owned());
    push_item(&mut arguments, "get".to_owned());
    push_item(&mut arguments, key.to_owned());
    push_item(&mut arguments, "--format=json".to_owned());
    proof {
        assert(arguments.deep_view() =~= config_arguments_of(key@));
    }
    arguments
}

/// The argument, where it applies.
pub open spec fn argument_if(applies: bool, argument: Seq<char>) -> Seq<Seq<char>> {
    if applies {
        seq![argument]
    } else {
        Seq::empty()
    }
}

/// The arguments of Cargo that select features.
pub open spec fn feature_arguments(
    features: Seq<Seq<char>>,
    all_features: bool,
    no_default_features: bool,
) -> Seq<Seq<char>> {
    if all_features {
        seq!["--all-features"@]
    } else {
        argument_if(no_default_features, "--no-default-features"@) + if features.len() == 0 {
            Seq::empty()
        } else {
            seq!["--features"@, joined(features, ","@)]
        }
    }
}

/// The arguments of Cargo that every command of a run has.
pub open spec fn profile_options_of(options: AuditCliView) -> Seq<Seq<char>> {
    argument_if(options.locked, "--locked"@) + argument_if(options.offline, "--offline"@)
        + feature_arguments(
        options.cargo.features,
        options.cargo.all_features,
        options.cargo.no_default_features,
    )
}

/// Lists the arguments of Cargo that every command of a run has.
pub fn profile_options(options: &AuditCli) -> (arguments: Vec<String>)
    ensures
        arguments.deep_view() == profile_options_of(options.deep_view()),
{
    let ghost told = options.deep_view();
    let mut arguments: Vec<String> = no_items();
    if options.locked {
        push_item(&mut arguments, "--locked".to_owned());
    }
    if options.offline {
        push_item(&mut arguments, "--offline".to_owned());
    }
    let ghost first = arguments.deep_view();
    proof {
        assert(first =~= argument_if(told.locked, "--locked"@) + argument_if(
            told.offline,
            "--offline"@,
        ));
        assert(told.cargo.features.len() == options.cargo.features.len());
    }
    if options.cargo.all_features {
        push_item(&mut arguments, "--all-features".to_owned());
    } else {
        if options.cargo.no_default_features {
            push_item(&mut arguments, "--no-default-features".to_owned());
        }
        if options.cargo.features.len() > 0 {
            push_item(&mut arguments, "--features".to_owned());
            push_item(&mut arguments, join(&options.cargo.features, ","));
        }
    }
    proof {
        assert(arguments.deep_view() =~= first + feature_arguments(
            told.cargo.features,
            told.cargo.all_features,
            told.cargo.no_default_features,
        ));
    }
    arguments
}

/// Texts as a list in JSON.
pub uninterp spec fn json_list(texts: Seq<Seq<char>>) -> Seq<char>;

/// Writes texts as a list in JSON with `serde_json::to_string`, which does not fail for texts. What
/// is written depends on the texts alone; how they are escaped is left unsaid.
#[verifier::external_body]
fn write_json_list(texts: &Vec<String>) -> (text: String)
    ensures
        text@ == json_list(texts.deep_view()),
{
    serde_json::to_string(texts).expect("texts can always be written")
}

/// Each condition behind the argument that sets it.
pub open spec fn cfg_flags(conditions: Seq<Seq<char>>) -> Seq<Seq<char>>
    decreases conditions.len(),
{
    if conditions.len() == 0 {
        Seq::empty()
    } else {
        cfg_flags(conditions.drop_last()).push("--cfg"@).push(conditions.last())
    }
}

fn list_cfg_flags(conditions: &Vec<String>) -> (flags: Vec<String>)
    ensures
        flags.deep_view() == cfg_flags(conditions.deep_view()),
{
    let ghost all = conditions.deep_view();
    let mut flags: Vec<String> = no_items();
    let mut at: usize = 0;
    proof {
        assert(all.take(0) =~= Seq::<Seq<char>>::empty());
    }
    while at < conditions.len()
        invariant
            all == conditions.deep_view(),
            at <= all.len(),
            flags.deep_view() == cfg_flags(all.take(at as int)),
        decreases all.len() - at,
    {
        proof {
            assert(all.take(at as int + 1).drop_last() =~= all.take(at as int));
            assert(all[at as int] == conditions[at as int]@);
        }
        push_item(&mut flags, "--cfg".to_owned());
        push_item(&mut flags, conditions[at].clone());
        at = at + 1;
    }
    proof {
        assert(all.take(all.len() as int) =~= all);
    }
    flags
}

/// The arguments that set the flags of the compiler.
pub open spec fn flag_arguments(flags: Seq<Seq<char>>) -> Seq<Seq<char>> {
    seq!["--config"@, "build.rustflags="@ + json_list(flags)]
}

/// What is wrong with setting conditions for all code.
pub open spec fn cargo_error(
    options: AuditCliView,
    target_flags: Option<ConfigValueView>,
    build_flags: Option<ConfigValueView>,
) -> Option<Seq<char>> {
    if options.cargo.cfg.len() == 0 {
        None
    } else if has_target_flags(target_flags) {
        Some("custom --cfg cannot be composed safely with Cargo target-specific rustflags"@)
    } else {
        match flags_of(build_flags) {
            Ok(_) => None,
            Err(message) => Some(message),
        }
    }
}

/// The arguments of Cargo that have a target checked in full.
pub open spec fn check_arguments(target: Seq<char>) -> Seq<Seq<char>> {
    seq![
        "check"@,
        "--workspace"@,
        "--all-targets"@,
        "--keep-going"@,
        "--message-format=json"@,
        "--target"@,
        target,
    ]
}

/// The arguments of Cargo that have the compiler run over a workspace.
pub open spec fn cargo_arguments_of(
    options: AuditCliView,
    target: Seq<char>,
    build_flags: Option<ConfigValueView>,
) -> Seq<Seq<char>> {
    check_arguments(target) + profile_options_of(options) + if options.cargo.cfg.len() == 0 {
        Seq::empty()
    } else {
        flag_arguments(flags_of(build_flags)->Ok_0 + cfg_flags(options.cargo.cfg))
    }
}

/// Lists the arguments of Cargo that have the compiler run over a workspace. Conditions that are set
/// for all code come behind the flags that are configured.
pub fn cargo_arguments(
    options: &AuditCli,
    target: &str,
    target_flags: &Option<ConfigValue>,
    build_flags: &Option<ConfigValue>,
) -> (result: Result<Vec<String>, String>)
    ensures
        reports(
            result,
            cargo_error(
                options.deep_view(),
                target_flags.deep_view(),
                build_flags.deep_view(),
            ),
        ),
        result matches Ok(arguments) ==> arguments.deep_view() == cargo_arguments_of(
            options.deep_view(),
            target@,
            build_flags.deep_view(),
        ),
{
    let ghost told = options.deep_view();
    let mut arguments: Vec<String> = no_items();
    push_item(&mut arguments, "check".to_owned());
    push_item(&mut arguments, "--workspace".to_owned());
    push_item(&mut arguments, "--all-targets".to_owned());
    push_item(&mut arguments, "--keep-going".to_owned());
    push_item(&mut arguments, "--message-format=json".to_owned());
    push_item(&mut arguments, "--target".to_owned());
    push_item(&mut arguments, target.to_owned());
    proof {
        assert(arguments.deep_view() =~= check_arguments(target@));
        assert(told.cargo.cfg.len() == options.cargo.cfg.len());
    }
    append_items(&mut arguments, profile_options(options));
    let ghost first = arguments.deep_view();
    if options.cargo.cfg.len() == 0 {
        proof {
            assert(first + Seq::<Seq<char>>::empty() =~= first);
        }
        return Ok(arguments);
    }
    if cargo_target_rustflags_configured(target_flags) {
        return Err(
            "custom --cfg cannot be composed safely with Cargo target-specific rustflags".to_owned(),
        );
    }
    let mut flags = match configured_build_rustflags(build_flags) {
        Ok(flags) => flags,
        Err(message) => return Err(message),
    };
    append_items(&mut flags, list_cfg_flags(&options.cargo.cfg));
    push_item(&mut arguments, "--config".to_owned());
    let mut setting = "build.rustflags=".to_owned();
    setting.append(write_json_list(&flags).as_str());
    push_item(&mut arguments, setting);
    proof {
        assert(arguments.deep_view() =~= first + flag_arguments(flags.deep_view()));
    }
    Ok(arguments)
}

/// A variable that is set.
pub open spec fn set_to(name: Seq<char>, value: Seq<char>) -> SettingView {
    SettingView { name, value: Some(value) }
}

/// The environment of Cargo when it has the compiler run over a workspace: it runs the driver and
/// tells it where to leave what it finds, and is not told to accept what is unstable.
pub open spec fn cargo_environment_of(
    driver: Seq<char>,
    paths: ArtifactPathsView,
    manifest_dirs: Seq<char>,
) -> Seq<SettingView> {
    seq![
        set_to("RUSTC_WORKSPACE_WRAPPER"@, driver),
        set_to(SIDECAR_DIR_ENV@, paths.events),
        set_to(RUN_ID_ENV@, paths.run_id),
        set_to(SELECTED_MANIFEST_DIRS_ENV@, manifest_dirs),
        set_to(TARGET_DIR_ENV@, paths.target),
        set_to(BUILD_DIR_ENV@, paths.build),
        set_to("CARGO_TARGET_DIR"@, paths.target),
        set_to("CARGO_BUILD_BUILD_DIR"@, paths.build),
        SettingView { name: "RUSTC_BOOTSTRAP"@, value: None },
    ]
}

fn setting(name: &str, value: &str) -> (setting: Setting)
    ensures
        setting.deep_view() == set_to(name@, value@),
{
    Setting { name: name.to_owned(), value: Some(value.to_owned()) }
}

/// Lists the environment of Cargo when it has the compiler run over a workspace.
pub fn cargo_environment(driver: &str, paths: &ArtifactPaths, manifest_dirs: &str) -> (settings: Vec<
    Setting,
>)
    ensures
        settings.deep_view() == cargo_environment_of(driver@, paths.deep_view(), manifest_dirs@),
{
    let mut settings: Vec<Setting> = no_items();
    push_item(&mut settings, setting("RUSTC_WORKSPACE_WRAPPER", driver));
    push_item(&mut settings, setting(SIDECAR_DIR_ENV, paths.events.as_str()));
    push_item(&mut settings, setting(RUN_ID_ENV, paths.run_id.as_str()));
    push_item(&mut settings, setting(SELECTED_MANIFEST_DIRS_ENV, manifest_dirs));
    push_item(&mut settings, setting(TARGET_DIR_ENV, paths.target.as_str()));
    push_item(&mut settings, setting(BUILD_DIR_ENV, paths.build.as_str()));
    push_item(&mut settings, setting("CARGO_TARGET_DIR", paths.target.as_str()));
    push_item(&mut settings, setting("CARGO_BUILD_BUILD_DIR", paths.build.as_str()));
    push_item(&mut settings, Setting { name: "RUSTC_BOOTSTRAP".to_owned(), value: None });
    proof {
        assert(settings.deep_view() =~= cargo_environment_of(
            driver@,
            paths.deep_view(),
            manifest_dirs@,
        ));
    }
    settings
}

/// The environment of Cargo without a wrapper for all compilers.
pub open spec fn no_wrapper() -> Seq<SettingView> {
    seq![
        set_to("RUSTC_WRAPPER"@, Seq::empty()),
        set_to("CARGO_BUILD_RUSTC_WRAPPER"@, Seq::empty()),
    ]
}

/// Lists what turns a wrapper for all compilers off.
pub fn disable_ordinary_wrapper() -> (settings: Vec<Setting>)
    ensures
        settings.deep_view() == no_wrapper(),
{
    let mut settings: Vec<Setting> = no_items();
    proof {
        reveal_strlit("");
        assert(""@ =~= Seq::<char>::empty());
    }
    push_item(&mut settings, setting("RUSTC_WRAPPER", ""));
    push_item(&mut settings, setting("CARGO_BUILD_RUSTC_WRAPPER", ""));
    proof {
        assert(settings.deep_view() =~= no_wrapper());
    }
    settings
}

/// The environment of Cargo when it is only asked something: it accepts what is unstable.
pub open spec fn preflight_of() -> Seq<SettingView> {
    seq![set_to("RUSTC_BOOTSTRAP"@, "1"@)]
}

/// Lists the environment of Cargo when it is only asked something.
pub fn unstable_environment() -> (settings: Vec<Setting>)
    ensures
        settings.deep_view() == preflight_of(),
{
    let mut settings: Vec<Setting> = no_items();
    push_item(&mut settings, setting("RUSTC_BOOTSTRAP", "1"));
    proof {
        assert(settings.deep_view() =~= preflight_of());
    }
    settings
}

/// Conditions come behind the flags that are configured, in the order in which they are requested.
pub proof fn law_conditions_follow_flags(conditions: Seq<Seq<char>>, i: int)
    requires
        0 <= i < conditions.len(),
    ensures
        cfg_flags(conditions).len() == 2 * conditions.len(),
        cfg_flags(conditions)[2 * i] == "--cfg"@,
        cfg_flags(conditions)[2 * i + 1] == conditions[i],
    decreases conditions.len(),
{
    let shorter = conditions.drop_last();
    if shorter.len() == 0 {
        assert(cfg_flags(shorter) =~= Seq::<Seq<char>>::empty());
    } else if i < shorter.len() {
        law_conditions_follow_flags(shorter, i);
    } else {
        law_conditions_follow_flags(shorter, 0);
    }
}

} // verus!
