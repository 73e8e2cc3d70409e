//! Places in source files.

use vstd::prelude::*;

use crate::collections::{any_item, any_where, find_first, first_where, no_items, push_item};
use crate::driver::definitions::{
    LocatedSpan, LocatedSpanView, SpanAttribution, SpanAttributionView,
};
use crate::order::Ordered;
use crate::paths::{
    has_extension, has_extension_of, list_path_key, path_below, path_key, strip_base,
};
use crate::protocol::{
    ExpansionOrigin, SourceFile, SourceFileKey, SourceFileView, SourceSpan, SourceSpanView,
};
use crate::text::{
    byte_length, decimal, decimal_text, lemma_byte_length_grows, lemma_decimal_digits,
    lemma_decimal_injective, lemma_written_first, same, utf8_length, write_each, written,
};

verus! {

/// One step of an expansion that code stems from.
#[derive(Clone, Copy, Debug, PartialEq, Eq, Structural)]
pub enum Expansion {
    LocalMacro,
    ExternalMacro,
    Builtin,
    Plain,
}

impl DeepView for Expansion {
    type V = Expansion;

    open spec fn deep_view(&self) -> Expansion {
        *self
    }
}

/// What the compiler says of a stretch of code and of the file that it is in.
#[derive(Debug, PartialEq, Eq)]
pub struct SpanFacts {
    /// Whether it is a real place, in a file of the crate that is compiled, and ends within it.
    pub located: bool,
    pub local_path: Option<String>,
    pub remapped_path: String,
    pub source_hash_algorithm: String,
    pub source_hash: String,
    pub byte_len: u32,
    pub start: u32,
    pub end: u32,
    /// The line, from one.
    pub line: usize,
    /// The column, from zero.
    pub column: usize,
}

/// The model of [`SpanFacts`].
#[verifier::ext_equal]
pub struct SpanFactsView {
    pub located: bool,
    pub local_path: Option<Seq<char>>,
    pub remapped_path: Seq<char>,
    pub source_hash_algorithm: Seq<char>,
    pub source_hash: Seq<char>,
    pub byte_len: u32,
    pub start: u32,
    pub end: u32,
    pub line: usize,
    pub column: usize,
}

impl DeepView for SpanFacts {
    type V = SpanFactsView;

    open spec fn deep_view(&self) -> SpanFactsView {
        SpanFactsView {
            located: self.located,
            local_path: self.local_path.deep_view(),
            remapped_path: self.remapped_path.deep_view(),
            source_hash_algorithm: self.source_hash_algorithm.deep_view(),
            source_hash: self.source_hash.deep_view(),
            byte_len: self.byte_len,
            start: self.start,
            end: self.end,
            line: self.line,
            column: self.column,
        }
    }
}

impl Clone for SpanFacts {
    fn clone(&self) -> (copy: Self)
        ensures
            copy.deep_view() == self.deep_view(),
    {
        let copy = SpanFacts {
            located: self.located,
            local_path: self.local_path.clone(),
            remapped_path: self.remapped_path.clone(),
            source_hash_algorithm: self.source_hash_algorithm.clone(),
            source_hash: self.source_hash.clone(),
            byte_len: self.byte_len,
            start: self.start,
            end: self.end,
            line: self.line,
            column: self.column,
        };
        proof {
            assert(copy.local_path.deep_view() =~= self.local_path.deep_view());
        }
        copy
    }
}

/// A directory for generated files.
#[derive(Debug, PartialEq, Eq)]
pub struct GeneratedRoot {
    pub label: String,
    pub path: String,
}

/// The model of [`GeneratedRoot`].
#[verifier::ext_equal]
pub struct GeneratedRootView {
    pub label: Seq<char>,
    pub path: Seq<char>,
}

impl DeepView for GeneratedRoot {
    type V = GeneratedRootView;

    open spec fn deep_view(&self) -> GeneratedRootView {
        GeneratedRootView {
            label: self.label.deep_view(),
            path: self.path.deep_view(),
        }
    }
}

impl Clone for GeneratedRoot {
    fn clone(&self) -> (copy: Self)
        ensures
            copy.deep_view() == self.deep_view(),
    {
        let copy = GeneratedRoot {
            label: self.label.clone(),
            path: self.path.clone(),
        };
        copy
    }
}

/// Whether a step is a macro.
pub open spec fn of_macro() -> spec_fn(Expansion) -> bool {
    |step: Expansion| step == Expansion::LocalMacro || step == Expansion::ExternalMacro
}

/// Where code stems from: the innermost macro decides, else whether the compiler made it.
pub open spec fn origin_of(steps: Seq<Expansion>) -> ExpansionOrigin {
    match first_where(steps, of_macro()) {
        Some(Expansion::LocalMacro) => ExpansionOrigin::LocalMacro,
        Some(_) => ExpansionOrigin::ExternalMacro,
        None => if any_where(steps, |step: Expansion| step == Expansion::Builtin) {
            ExpansionOrigin::BuiltinDesugaring
        } else {
            ExpansionOrigin::Authored
        },
    }
}

/// Finds where code stems from, by the steps of its expansion from the innermost on.
pub fn expansion_origin(steps: &Vec<Expansion>) -> (origin: ExpansionOrigin)
    ensures
        origin == origin_of(steps.deep_view()),
{
    let ghost macro_step = of_macro();
    let is_macro = |step: &Expansion| -> (result: bool)
        ensures
            result == macro_step(step.deep_view()),
    {
        *step == Expansion::LocalMacro || *step == Expansion::ExternalMacro
    };
    let ghost builtin_step = |step: Expansion| step == Expansion::Builtin;
    let is_builtin = |step: &Expansion| -> (result: bool)
        ensures
            result == builtin_step(step.deep_view()),
    {
        *step == Expansion::Builtin
    };
    match find_first(steps, is_macro, Ghost(macro_step)) {
        Some(step) => if *step == Expansion::LocalMacro {
            ExpansionOrigin::LocalMacro
        } else {
            ExpansionOrigin::ExternalMacro
        },
        None => if any_item(steps, is_builtin, Ghost(builtin_step)) {
            ExpansionOrigin::BuiltinDesugaring
        } else {
            ExpansionOrigin::Authored
        },
    }
}

/// Whether the place of code that stems from an expansion is one of its own.
pub open spec fn has_own_place(
    origin: ExpansionOrigin,
    raw: Option<LocatedSpanView>,
    callsite: Option<LocatedSpanView>,
) -> bool {
    origin == ExpansionOrigin::Authored || match raw {
        Some(raw) => raw.source.generated || match callsite {
            Some(callsite) => callsite.source.key != raw.source.key,
            None => true,
        },
        None => false,
    }
}

/// Where code is, and where the expansion that it stems from was asked for.
pub open spec fn attribution_of(
    origin: ExpansionOrigin,
    raw: Option<LocatedSpanView>,
    call: Option<LocatedSpanView>,
) -> SpanAttributionView {
    let callsite = if origin != ExpansionOrigin::Authored {
        call
    } else {
        None
    };
    SpanAttributionView {
        span: if has_own_place(origin, raw, callsite) {
            raw
        } else {
            None
        },
        callsite,
        origin,
    }
}

/// Decides where code is: code of a macro that claims to be in the file of the call is only known
/// by the call.
pub fn span_attribution(
    origin: ExpansionOrigin,
    raw: Option<LocatedSpan>,
    call: Option<LocatedSpan>,
) -> (attribution: SpanAttribution)
    ensures
        attribution.deep_view() == attribution_of(origin, raw.deep_view(), call.deep_view()),
{
    let callsite = if origin != ExpansionOrigin::Authored {
        call
    } else {
        None
    };
    let trustworthy = if origin == ExpansionOrigin::Authored {
        true
    } else {
        match (&raw, &callsite) {
            (Some(raw), Some(callsite)) => raw.source.generated || !same(
                callsite.source.key.0.as_str(),
                raw.source.key.0.as_str(),
            ),
            (Some(_), None) => true,
            (None, _) => false,
        }
    };
    SpanAttribution {
        span: if trustworthy {
            raw
        } else {
            None
        },
        callsite,
        origin,
    }
}

/// The parts of an identity, each behind the number of its bytes and a colon.
pub open spec fn length_prefixed_text(parts: Seq<Seq<char>>) -> Seq<char> {
    written(parts, |part: Seq<char>| decimal(byte_length(part)) + ":"@ + part)
}

/// Writes the parts of an identity, each behind the number of its bytes and a colon.
pub fn length_prefixed(parts: &Vec<String>) -> (key: String)
    ensures
        key@ == length_prefixed_text(parts.deep_view()),
{
    let ghost piece = |part: Seq<char>| decimal(byte_length(part)) + ":"@ + part;
    let write = |part: &String| -> (text: String)
        ensures
            text@ == piece(part.deep_view()),
    {
        let mut text = decimal_text(utf8_length(part.as_str()));
        text.append(":");
        text.append(part.as_str());
        text
    };
    write_each(parts, write, Ghost(piece))
}

/// The directory for generated files that holds a path most closely, and the path below it: the one
/// with the most components, of which the root is one. Of two that do, the later one counts.
pub open spec fn closest_root(path: Seq<char>, roots: Seq<GeneratedRootView>) -> Option<
    (GeneratedRootView, Seq<char>),
>
    decreases roots.len(),
{
    if roots.len() == 0 {
        None
    } else {
        let before = closest_root(path, roots.drop_last());
        match path_below(path, roots.last().path) {
            None => before,
            Some(rest) => match before {
                Some(found) => if path_key(found.0.path).len() <= path_key(
                    roots.last().path,
                ).len() {
                    Some((roots.last(), rest))
                } else {
                    before
                },
                None => Some((roots.last(), rest)),
            },
        }
    }
}

/// What identifies a generated file, wherever its directory lies.
pub open spec fn generated_identity_of(path: Seq<char>, roots: Seq<GeneratedRootView>) -> Option<
    Seq<char>,
> {
    match closest_root(path, roots) {
        Some(found) => Some("<generated:"@ + found.0.label + ">/"@ + found.1),
        None => None,
    }
}

/// Writes what identifies a generated file, wherever its directory lies.
pub fn generated_identity(path: &str, roots: &Vec<GeneratedRoot>) -> (identity: Option<String>)
    ensures
        identity.deep_view() == generated_identity_of(path@, roots.deep_view()),
{
    let ghost all = roots.deep_view();
    let mut best: Option<(usize, usize, String)> = None;
    let mut at: usize = 0;
    proof {
        assert(all.take(0) =~= Seq::<GeneratedRootView>::empty());
    }
    while at < roots.len()
        invariant
            all == roots.deep_view(),
            at <= all.len(),
            match best {
                Some(found) => found.0 < all.len() && found.1 == path_key(
                    all[found.0 as int].path,
                ).len() && closest_root(path@, all.take(at as int)) == Some(
                    (all[found.0 as int], found.2@),
                ),
                None => closest_root(path@, all.take(at as int)) is None,
            },
        decreases all.len() - at,
    {
        proof {
            assert(all[at as int] == roots[at as int].deep_view());
            assert(all.take(at as int + 1).drop_last() =~= all.take(at as int));
        }
        if let Some(rest) = strip_base(path, roots[at].path.as_str()) {
            let key = list_path_key(roots[at].path.as_str());
            let depth: usize = key.len();
            proof {
                assert(key.deep_view().len() == key.len());
            }
            let closer = match &best {
                Some(found) => found.1 <= depth,
                None => true,
            };
            if closer {
                best = Some((at, depth, rest));
            }
        }
        at = at + 1;
    }
    proof {
        assert(all.take(all.len() as int) =~= all);
    }
    match best {
        Some(found) => {
            proof {
                assert(all[found.0 as int] == roots[found.0 as int].deep_view());
            }
            let mut identity = "<generated:".to_owned();
            identity.append(roots[found.0].label.as_str());
            identity.append(">/");
            identity.append(found.2.as_str());
            Some(identity)
        },
        None => None,
    }
}

/// Where a file lies: where it is known, else where it is said to be.
pub open spec fn physical_path(facts: SpanFactsView) -> Seq<char> {
    match facts.local_path {
        Some(path) => path,
        None => facts.remapped_path,
    }
}

/// What identifies the file of some code, where it is a generated one.
pub open spec fn generated_file(facts: SpanFactsView, roots: Seq<GeneratedRootView>) -> Option<
    Seq<char>,
> {
    match facts.local_path {
        Some(path) => generated_identity_of(path, roots),
        None => None,
    }
}

/// The key of the file of some code.
pub open spec fn source_key(facts: SpanFactsView, roots: Seq<GeneratedRootView>) -> Seq<char> {
    length_prefixed_text(
        seq![
            "source-v2"@,
            match generated_file(facts, roots) {
                Some(identity) => identity,
                None => physical_path(facts),
            },
            facts.source_hash_algorithm,
            facts.source_hash,
        ],
    )
}

/// The place of some code, where it is in a Rust source file of the crate.
pub open spec fn located_span(facts: SpanFactsView, roots: Seq<GeneratedRootView>) -> Option<
    LocatedSpanView,
> {
    if facts.located && has_extension_of(physical_path(facts), "rs"@) && facts.line <= u32::MAX
        && facts.column < u32::MAX {
        let key = source_key(facts, roots);
        Some(
            LocatedSpanView {
                source: SourceFileView {
                    key,
                    local_path: facts.local_path,
                    remapped_path: facts.remapped_path,
                    source_hash_algorithm: facts.source_hash_algorithm,
                    source_hash: facts.source_hash,
                    byte_len: facts.byte_len,
                    generated: generated_file(facts, roots) is Some,
                },
                span: SourceSpanView {
                    file: key,
                    start: facts.start,
                    end: facts.end,
                    line: facts.line as u32,
                    column: (facts.column + 1) as u32,
                },
            },
        )
    } else {
        None
    }
}

/// Finds the place of some code, where it is in a Rust source file of the crate.
pub fn source_span(facts: &SpanFacts, roots: &Vec<GeneratedRoot>) -> (span: Option<LocatedSpan>)
    ensures
        span.deep_view() == located_span(facts.deep_view(), roots.deep_view()),
{
    if !facts.located {
        return None;
    }
    let physical = match &facts.local_path {
        Some(path) => path.as_str(),
        None => facts.remapped_path.as_str(),
    };
    if !has_extension(physical, "rs") {
        return None;
    }
    if facts.line > 0xffff_ffff || facts.column >= 0xffff_ffff {
        return None;
    }
    let identity = match &facts.local_path {
        Some(path) => generated_identity(path.as_str(), roots),
        None => None,
    };
    let generated = identity.is_some();
    let copy = facts.clone();
    let mut parts: Vec<String> = no_items();
    push_item(&mut parts, "source-v2".to_owned());
    match identity {
        Some(identity) => push_item(&mut parts, identity),
        None => push_item(&mut parts, physical.to_owned()),
    }
    push_item(&mut parts, facts.source_hash_algorithm.clone());
    push_item(&mut parts, facts.source_hash.clone());
    let key = length_prefixed(&parts);
    proof {
        let told = facts.deep_view();
        let all = roots.deep_view();
        assert(parts.deep_view() =~= seq![
            "source-v2"@,
            match generated_file(told, all) {
                Some(identity) => identity,
                None => physical_path(told),
            },
            told.source_hash_algorithm,
            told.source_hash,
        ]);
    }
    Some(
        LocatedSpan {
            source: SourceFile {
                key: SourceFileKey(key.clone()),
                local_path: copy.local_path,
                remapped_path: copy.remapped_path,
                source_hash_algorithm: copy.source_hash_algorithm,
                source_hash: copy.source_hash,
                byte_len: facts.byte_len,
                generated,
            },
            span: SourceSpan {
                file: SourceFileKey(key),
                start: facts.start,
                end: facts.end,
                line: facts.line as u32,
                column: (facts.column + 1) as u32,
            },
        },
    )
}

/// Different parts make different identities: no two lists of parts are written alike.
pub proof fn law_length_prefixes_tell_parts_apart(left: Seq<Seq<char>>, right: Seq<Seq<char>>)
    requires
        length_prefixed_text(left) == length_prefixed_text(right),
    ensures
        left == right,
    decreases left.len(),
{
    let piece = |part: Seq<char>| decimal(byte_length(part)) + ":"@ + part;
    reveal_strlit(":");
    if left.len() == 0 || right.len() == 0 {
        if left.len() > 0 {
            lemma_written_first(left, piece);
            assert(length_prefixed_text(left).len() > 0);
        }
        if right.len() > 0 {
            lemma_written_first(right, piece);
            assert(length_prefixed_text(right).len() > 0);
        }
        assert(left =~= right);
    } else {
        lemma_written_first(left, piece);
        lemma_written_first(right, piece);
        let l = left[0];
        let r = right[0];
        let text = length_prefixed_text(left);
        let left_number = decimal(byte_length(l));
        let right_number = decimal(byte_length(r));
        let left_rest = written(left.drop_first(), piece);
        let right_rest = written(right.drop_first(), piece);
        assert(text == left_number + ":"@ + l + left_rest);
        assert(text == right_number + ":"@ + r + right_rest);
        lemma_decimal_digits(byte_length(l));
        lemma_decimal_digits(byte_length(r));
        assert(text[left_number.len() as int] == ':');
        assert(text[right_number.len() as int] == ':');
        if left_number.len() < right_number.len() {
            assert(text[left_number.len() as int] == right_number[left_number.len() as int]);
        }
        if right_number.len() < left_number.len() {
            assert(text[right_number.len() as int] == left_number[right_number.len() as int]);
        }
        let count = left_number.len() as int;
        assert(left_number =~= text.take(count));
        assert(right_number =~= text.take(count));
        lemma_decimal_injective(byte_length(l), byte_length(r));
        assert(l + left_rest =~= text.skip(count + 1));
        assert(r + right_rest =~= text.skip(count + 1));
        let tail = text.skip(count + 1);
        assert(l =~= tail.take(l.len() as int));
        assert(r =~= tail.take(r.len() as int));
        if l.len() < r.len() {
            assert(r.take(l.len() as int) =~= l);
            lemma_byte_length_grows(r, l.len() as int);
        }
        if r.len() < l.len() {
            assert(l.take(r.len() as int) =~= r);
            lemma_byte_length_grows(l, r.len() as int);
        }
        assert(l == r);
        assert(left_rest =~= tail.skip(l.len() as int));
        assert(right_rest =~= tail.skip(r.len() as int));
        law_length_prefixes_tell_parts_apart(left.drop_first(), right.drop_first());
        assert(left =~= seq![l] + left.drop_first());
        assert(right =~= seq![r] + right.drop_first());
    }
}

} // verus!
