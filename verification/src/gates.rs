//! Conditional compilation: when the code behind attributes is part of a build.

use ra_ap_syntax::ast::HasModuleItem;
use ra_ap_syntax::AstNode;
use vstd::prelude::*;

use crate::collections::SortedSet;
use crate::model::{Activation, Reachability};
use crate::text::{byte_length, compact, same, split, split_on, utf8_length, without_spaces};

verus! {

/// The features of a package that are on, and those that are forced off.
#[derive(Debug, PartialEq, Eq)]
pub struct PackageFeatures {
    pub enabled: SortedSet<String>,
    pub excluded: SortedSet<String>,
}

/// The model of [`PackageFeatures`].
#[verifier::ext_equal]
pub struct PackageFeaturesView {
    pub enabled: Set<Seq<char>>,
    pub excluded: Set<Seq<char>>,
}

impl DeepView for PackageFeatures {
    type V = PackageFeaturesView;

    open spec fn deep_view(&self) -> PackageFeaturesView {
        PackageFeaturesView {
            enabled: self.enabled.deep_view(),
            excluded: self.excluded.deep_view(),
        }
    }
}

impl PackageFeatures {
    /// Whether both sets are in order.
    pub open spec fn wf(&self) -> bool {
        self.enabled.wf() && self.excluded.wf()
    }

    /// No features.
    pub fn new() -> (features: Self)
        ensures
            features.wf(),
            features.deep_view() == (PackageFeaturesView {
                enabled: Set::empty(),
                excluded: Set::empty(),
            }),
    {
        PackageFeatures { enabled: SortedSet::new(), excluded: SortedSet::new() }
    }
}

/// A condition on one name, with a value or without.
#[derive(Debug, PartialEq, Eq)]
pub enum Atom {
    Flag(String),
    KeyValue { key: String, value: String },
}

/// The model of [`Atom`].
pub enum AtomView {
    Flag(Seq<char>),
    KeyValue { key: Seq<char>, value: Seq<char> },
}

impl DeepView for Atom {
    type V = AtomView;

    open spec fn deep_view(&self) -> AtomView {
        match self {
            Atom::Flag(name) => AtomView::Flag(name@),
            Atom::KeyValue { key, value } => AtomView::KeyValue { key: key@, value: value@ },
        }
    }
}

/// A condition on the configuration of a build.
#[derive(Debug, PartialEq, Eq)]
pub enum Condition {
    Invalid,
    Atom(Atom),
    All(Vec<Condition>),
    Any(Vec<Condition>),
    Not(Box<Condition>),
}

/// The model of [`Condition`].
pub enum ConditionView {
    Invalid,
    Atom(AtomView),
    All(Seq<ConditionView>),
    Any(Seq<ConditionView>),
    Not(Box<ConditionView>),
}

/// The model of a condition.
pub open spec fn condition_view(condition: Condition) -> ConditionView
    decreases condition,
{
    match condition {
        Condition::Invalid => ConditionView::Invalid,
        Condition::Atom(atom) => ConditionView::Atom(atom.deep_view()),
        Condition::All(parts) => ConditionView::All(conditions_view(parts@)),
        Condition::Any(parts) => ConditionView::Any(conditions_view(parts@)),
        Condition::Not(inner) => ConditionView::Not(Box::new(condition_view(*inner))),
    }
}

/// The models of some conditions.
pub open spec fn conditions_view(conditions: Seq<Condition>) -> Seq<ConditionView>
    decreases conditions,
{
    if conditions.len() == 0 {
        Seq::empty()
    } else {
        conditions_view(conditions.drop_last()).push(condition_view(conditions.last()))
    }
}

impl DeepView for Condition {
    type V = ConditionView;

    open spec fn deep_view(&self) -> ConditionView {
        condition_view(*self)
    }
}

/// What an attribute says: a condition, a condition on other attributes, or something else under a
/// path.
#[derive(Debug, PartialEq, Eq)]
pub enum AttributeMeta {
    Cfg(Option<Condition>),
    CfgAttr(Option<Condition>, Vec<AttributeMeta>),
    Path(String),
    Pathless,
}

/// The model of [`AttributeMeta`].
pub enum AttributeMetaView {
    Cfg(Option<ConditionView>),
    CfgAttr(Option<ConditionView>, Seq<AttributeMetaView>),
    Path(Seq<char>),
    Pathless,
}

/// The model of what an attribute says.
pub open spec fn meta_view(meta: AttributeMeta) -> AttributeMetaView
    decreases meta,
{
    match meta {
        AttributeMeta::Cfg(condition) => AttributeMetaView::Cfg(condition.deep_view()),
        AttributeMeta::CfgAttr(condition, metas) => AttributeMetaView::CfgAttr(
            condition.deep_view(),
            metas_view(metas@),
        ),
        AttributeMeta::Path(path) => AttributeMetaView::Path(path@),
        AttributeMeta::Pathless => AttributeMetaView::Pathless,
    }
}

/// The models of what some attributes say.
pub open spec fn metas_view(metas: Seq<AttributeMeta>) -> Seq<AttributeMetaView>
    decreases metas,
{
    if metas.len() == 0 {
        Seq::empty()
    } else {
        metas_view(metas.drop_last()).push(meta_view(metas.last()))
    }
}

impl DeepView for AttributeMeta {
    type V = AttributeMetaView;

    open spec fn deep_view(&self) -> AttributeMetaView {
        meta_view(*self)
    }
}

/// The attributes of the first item of some source, where it has an item. An attribute without
/// anything in it is `None`.
pub uninterp spec fn item_attributes(source: Seq<char>) -> Option<Seq<Option<AttributeMetaView>>>;

/// The syntax tree of an attribute.
#[verifier::external_type_specification]
#[verifier::external_body]
pub struct ExMeta(ra_ap_syntax::ast::Meta);

/// A condition on one name as `ra_ap_cfg` reads it.
#[verifier::external_type_specification]
#[verifier::external_body]
pub struct ExCfgAtom(ra_ap_cfg::CfgAtom);

/// A condition as `ra_ap_cfg` reads it.
#[verifier::external_type_specification]
#[verifier::external_body]
pub struct ExCfgExpr(ra_ap_cfg::CfgExpr);

/// Reads the attributes of the first item of some source with `ra_ap_syntax::SourceFile::parse`.
/// What it finds depends on the source alone; how it reads Rust is left unsaid. It counts the
/// bytes of the source in 32 bits, so the source is no longer than that. Source that nests too
/// deeply for the stack of the thread is not provided for.
#[verifier::external_body]
fn read_item_attributes(source: &str) -> (attributes: Option<Vec<Option<AttributeMeta>>>)
    requires
        byte_length(source@) <= u32::MAX,
    ensures
        attributes.deep_view() == item_attributes(source@),
{
    let parse = ra_ap_syntax::SourceFile::parse(source, ra_ap_syntax::Edition::CURRENT);
    let item = parse.tree().items().next()?;
    let attributes = item.syntax().children().filter_map(ra_ap_syntax::ast::Attr::cast);
    Some(attributes.map(|attribute| attribute.meta().map(convert_meta)).collect())
}

/// Takes the syntax tree of an attribute apart, for [`read_item_attributes`]: conditions by
/// `ra_ap_cfg::CfgExpr::parse_from_ast`, anything else by the text of its path.
#[verifier::external_body]
fn convert_meta(meta: ra_ap_syntax::ast::Meta) -> AttributeMeta {
    let convert = |predicate| convert_condition(ra_ap_cfg::CfgExpr::parse_from_ast(predicate));
    match meta {
        ra_ap_syntax::ast::Meta::CfgMeta(it) => AttributeMeta::Cfg(it.cfg_predicate().map(convert)),
        ra_ap_syntax::ast::Meta::CfgAttrMeta(it) => AttributeMeta::CfgAttr(
            it.cfg_predicate().map(convert),
            it.metas().map(convert_meta).collect(),
        ),
        other => match other.path() {
            Some(path) => AttributeMeta::Path(path.syntax().text().to_string()),
            None => AttributeMeta::Pathless,
        },
    }
}

/// Takes a condition on one name apart, for [`convert_condition`].
#[verifier::external_body]
fn convert_atom(atom: ra_ap_cfg::CfgAtom) -> Atom {
    match atom {
        ra_ap_cfg::CfgAtom::Flag(name) => Atom::Flag(name.as_str().to_owned()),
        ra_ap_cfg::CfgAtom::KeyValue { key, value } => Atom::KeyValue {
            key: key.as_str().to_owned(),
            value: value.as_str().to_owned(),
        },
    }
}

/// Takes a condition apart, for [`convert_meta`].
#[verifier::external_body]
fn convert_condition(condition: ra_ap_cfg::CfgExpr) -> Condition {
    let list = |parts: Box<[ra_ap_cfg::CfgExpr]>| {
        parts.into_vec().into_iter().map(convert_condition).collect()
    };
    match condition {
        ra_ap_cfg::CfgExpr::Invalid => Condition::Invalid,
        ra_ap_cfg::CfgExpr::Atom(atom) => Condition::Atom(convert_atom(atom)),
        ra_ap_cfg::CfgExpr::All(parts) => Condition::All(list(parts)),
        ra_ap_cfg::CfgExpr::Any(parts) => Condition::Any(list(parts)),
        ra_ap_cfg::CfgExpr::Not(inner) => Condition::Not(Box::new(convert_condition(*inner))),
    }
}

/// The names of conditions that every compiler knows, separated by spaces.
pub const BUILTIN_NAMES: &'static str =
    "target_arch target_endian target_env target_family target_feature target_has_atomic target_has_atomic_equal_alignment target_has_atomic_load_store target_has_atomic_primitive_alignment target_os target_pointer_width target_vendor panic debug_assertions unix windows";

/// The attributes that mark tests, separated by spaces.
pub const TEST_ATTRIBUTES: &'static str =
    "test bench tokio::test async_std::test actix_rt::test rstest test_case wasm_bindgen_test";

/// The configuration that builds are judged by.
#[derive(Debug, PartialEq, Eq)]
pub struct CfgProfile {
    known_true: SortedSet<String>,
    known_false: SortedSet<String>,
    builtin_names: SortedSet<String>,
    test_attributes: SortedSet<String>,
}

/// The model of [`CfgProfile`].
#[verifier::ext_equal]
pub struct CfgProfileView {
    pub known_true: Set<Seq<char>>,
    pub known_false: Set<Seq<char>>,
    pub builtin_names: Set<Seq<char>>,
    pub test_attributes: Set<Seq<char>>,
}

impl DeepView for CfgProfile {
    type V = CfgProfileView;

    closed spec fn deep_view(&self) -> CfgProfileView {
        CfgProfileView {
            known_true: self.known_true.deep_view(),
            known_false: self.known_false.deep_view(),
            builtin_names: self.builtin_names.deep_view(),
            test_attributes: self.test_attributes.deep_view(),
        }
    }
}

/// The name that an atom is about.
pub open spec fn atom_name(atom: AtomView) -> Seq<char> {
    match atom {
        AtomView::Flag(name) => name,
        AtomView::KeyValue { key, .. } => key,
    }
}

/// An atom as it is written.
pub open spec fn atom_text(atom: AtomView) -> Seq<char> {
    match atom {
        AtomView::Flag(name) => name,
        AtomView::KeyValue { key, value } => key + "="@ + value,
    }
}

/// Whether a feature is on: what is forced off is off, and so is what is not enabled. Without
/// knowledge of the package it may be on.
pub open spec fn feature_value(
    feature: Seq<char>,
    features: Option<PackageFeaturesView>,
) -> Activation {
    match features {
        Some(features) => if features.excluded.contains(feature) {
            Activation::Never
        } else if features.enabled.contains(feature) {
            Activation::Always
        } else {
            Activation::Never
        },
        None => Activation::Maybe,
    }
}

/// When an atom holds.
pub open spec fn atom_value(
    profile: CfgProfileView,
    atom: AtomView,
    test: bool,
    features: Option<PackageFeaturesView>,
) -> Activation {
    let name = atom_name(atom);
    if name == "test"@ || name == "doctest"@ {
        if test {
            Activation::Always
        } else {
            Activation::Never
        }
    } else if name == "true"@ {
        Activation::Always
    } else if name == "false"@ {
        Activation::Never
    } else if name == "feature"@ {
        match atom {
            AtomView::KeyValue { value, .. } => feature_value(value, features),
            AtomView::Flag(_) => Activation::Maybe,
        }
    } else if profile.known_true.contains(atom_text(atom)) {
        Activation::Always
    } else if profile.known_false.contains(atom_text(atom)) {
        Activation::Never
    } else if profile.builtin_names.contains(name) {
        Activation::Never
    } else {
        Activation::Maybe
    }
}

/// When a condition holds.
pub open spec fn condition_value(
    profile: CfgProfileView,
    condition: ConditionView,
    test: bool,
    features: Option<PackageFeaturesView>,
) -> Activation
    decreases condition,
{
    match condition {
        ConditionView::Invalid => Activation::Maybe,
        ConditionView::Atom(atom) => atom_value(profile, atom, test, features),
        ConditionView::All(parts) => all_value(profile, parts, test, features),
        ConditionView::Any(parts) => any_value(profile, parts, test, features),
        ConditionView::Not(inner) => condition_value(profile, *inner, test, features).negated(),
    }
}

/// When all of some conditions hold.
pub open spec fn all_value(
    profile: CfgProfileView,
    parts: Seq<ConditionView>,
    test: bool,
    features: Option<PackageFeaturesView>,
) -> Activation
    decreases parts,
{
    if parts.len() == 0 {
        Activation::Always
    } else {
        all_value(profile, parts.drop_last(), test, features).meet(
            condition_value(profile, parts.last(), test, features),
        )
    }
}

/// When any of some conditions holds.
pub open spec fn any_value(
    profile: CfgProfileView,
    parts: Seq<ConditionView>,
    test: bool,
    features: Option<PackageFeaturesView>,
) -> Activation
    decreases parts,
{
    if parts.len() == 0 {
        Activation::Never
    } else {
        any_value(profile, parts.drop_last(), test, features).join(
            condition_value(profile, parts.last(), test, features),
        )
    }
}

/// In which builds a condition holds.
pub open spec fn condition_gate(
    profile: CfgProfileView,
    condition: ConditionView,
    features: Option<PackageFeaturesView>,
) -> Reachability {
    Reachability {
        production: condition_value(profile, condition, false, features),
        test: condition_value(profile, condition, true, features),
    }
}

/// In which builds a condition holds that may be missing.
pub open spec fn optional_gate(
    profile: CfgProfileView,
    condition: Option<ConditionView>,
    features: Option<PackageFeaturesView>,
) -> Reachability {
    match condition {
        Some(condition) => condition_gate(profile, condition, features),
        None => Reachability::both(),
    }
}

/// A gate that only stands where a condition holds.
pub open spec fn gate_where(condition: Reachability, gate: Reachability) -> Reachability {
    Reachability {
        production: condition.production.negated().join(gate.production),
        test: condition.test.negated().join(gate.test),
    }
}

/// In which builds the code behind an attribute is.
pub open spec fn meta_gate_of(
    profile: CfgProfileView,
    meta: AttributeMetaView,
    features: Option<PackageFeaturesView>,
) -> Reachability
    decreases meta,
{
    match meta {
        AttributeMetaView::Cfg(condition) => optional_gate(profile, condition, features),
        AttributeMetaView::CfgAttr(condition, metas) => metas_gate_of(
            profile,
            metas,
            optional_gate(profile, condition, features),
            features,
        ),
        AttributeMetaView::Path(path) => if profile.test_attributes.contains(compact(path)) {
            Reachability::test()
        } else {
            Reachability::both()
        },
        AttributeMetaView::Pathless => Reachability::both(),
    }
}

/// In which builds the code behind attributes is that only stand where a condition holds.
pub open spec fn metas_gate_of(
    profile: CfgProfileView,
    metas: Seq<AttributeMetaView>,
    condition: Reachability,
    features: Option<PackageFeaturesView>,
) -> Reachability
    decreases metas,
{
    if metas.len() == 0 {
        Reachability::both()
    } else {
        metas_gate_of(profile, metas.drop_last(), condition, features).meet(
            gate_where(condition, meta_gate_of(profile, metas.last(), features)),
        )
    }
}

/// In which builds the code behind all of some attributes is.
pub open spec fn attributes_gate(
    profile: CfgProfileView,
    attributes: Seq<Option<AttributeMetaView>>,
    features: Option<PackageFeaturesView>,
) -> Reachability
    decreases attributes.len(),
{
    if attributes.len() == 0 {
        Reachability::both()
    } else {
        attributes_gate(profile, attributes.drop_last(), features).meet(
            match attributes.last() {
                Some(meta) => meta_gate_of(profile, meta, features),
                None => Reachability::both(),
            },
        )
    }
}

/// The words of a text that are separated by spaces.
pub open spec fn words(text: Seq<char>) -> Set<Seq<char>> {
    split_on(text, ' ').to_set()
}

fn add_words(set: &mut SortedSet<String>, list: &Vec<String>)
    requires
        old(set).wf(),
    ensures
        final(set).wf(),
        final(set).deep_view() == old(set).deep_view().union(list.deep_view().to_set()),
{
    let ghost all = list.deep_view();
    let ghost start = set.deep_view();
    let mut at: usize = 0;
    proof {
        assert(start.union(all.take(0).to_set()) =~= start);
    }
    while at < list.len()
        invariant
            all == list.deep_view(),
            set.wf(),
            at <= all.len(),
            set.deep_view() == start.union(all.take(at as int).to_set()),
        decreases all.len() - at,
    {
        proof {
            assert(all[at as int] == list[at as int]@);
            crate::collections::lemma_prefix_set(all, at as int);
        }
        let ghost before = all.take(at as int).to_set();
        set.insert(list[at].clone());
        proof {
            assert(start.union(before).insert(all[at as int]) =~= start.union(
                before.insert(all[at as int]),
            ));
        }
        at = at + 1;
    }
    proof {
        assert(all.take(all.len() as int) =~= all);
    }
}

impl CfgProfile {
    /// Whether all sets are in order.
    pub closed spec fn wf(&self) -> bool {
        self.known_true.wf() && self.known_false.wf() && self.builtin_names.wf()
            && self.test_attributes.wf()
    }

    /// A configuration: the names that every compiler knows and the attributes that mark tests are
    /// added to those that are given.
    pub fn new(
        known_true: SortedSet<String>,
        known_false: SortedSet<String>,
        builtin_names: SortedSet<String>,
        custom_test_attributes: &Vec<String>,
    ) -> (profile: Self)
        requires
            known_true.wf(),
            known_false.wf(),
            builtin_names.wf(),
        ensures
            profile.wf(),
            profile.deep_view() == (CfgProfileView {
                known_true: known_true.deep_view(),
                known_false: known_false.deep_view(),
                builtin_names: builtin_names.deep_view().union(words(BUILTIN_NAMES@)),
                test_attributes: words(TEST_ATTRIBUTES@).union(
                    custom_test_attributes.deep_view().to_set(),
                ),
            }),
    {
        let mut builtin_names = builtin_names;
        add_words(&mut builtin_names, &split(BUILTIN_NAMES, ' '));
        let mut test_attributes: SortedSet<String> = SortedSet::new();
        add_words(&mut test_attributes, &split(TEST_ATTRIBUTES, ' '));
        add_words(&mut test_attributes, custom_test_attributes);
        proof {
            assert(Set::<Seq<char>>::empty().union(words(TEST_ATTRIBUTES@)) =~= words(
                TEST_ATTRIBUTES@,
            ));
        }
        CfgProfile { known_true, known_false, builtin_names, test_attributes }
    }

    fn eval_atom(&self, atom: &Atom, test: bool, features: Option<&PackageFeatures>) -> (value:
        Activation)
        requires
            self.wf(),
            features matches Some(features) ==> features.wf(),
        ensures
            value == atom_value(
                self.deep_view(),
                atom.deep_view(),
                test,
                features.deep_view(),
            ),
    {
        let name = match atom {
            Atom::Flag(name) => name.clone(),
            Atom::KeyValue { key, .. } => key.clone(),
        };
        if same(name.as_str(), "test") || same(name.as_str(), "doctest") {
            return if test {
                Activation::Always
            } else {
                Activation::Never
            };
        }
        if same(name.as_str(), "true") {
            return Activation::Always;
        }
        if same(name.as_str(), "false") {
            return Activation::Never;
        }
        if same(name.as_str(), "feature") {
            return match atom {
                Atom::KeyValue { value, .. } => match features {
                    Some(features) => if features.excluded.contains(value) {
                        Activation::Never
                    } else if features.enabled.contains(value) {
                        Activation::Always
                    } else {
                        Activation::Never
                    },
                    None => Activation::Maybe,
                },
                Atom::Flag(_) => Activation::Maybe,
            };
        }
        let rendered = match atom {
            Atom::Flag(name) => name.clone(),
            Atom::KeyValue { key, value } => {
                let mut text = key.clone();
                text.append("=");
                text.append(value.as_str());
                text
            },
        };
        if self.known_true.contains(&rendered) {
            return Activation::Always;
        }
        if self.known_false.contains(&rendered) {
            return Activation::Never;
        }
        if self.builtin_names.contains(&name) {
            return Activation::Never;
        }
        Activation::Maybe
    }

    /// When a condition holds.
    pub fn eval(&self, condition: &Condition, test: bool, features: Option<&PackageFeatures>) -> (
    value: Activation)
        requires
            self.wf(),
            features matches Some(features) ==> features.wf(),
        ensures
            value == condition_value(
                self.deep_view(),
                condition.deep_view(),
                test,
                features.deep_view(),
            ),
        decreases condition,
    {
        match condition {
            Condition::Invalid => Activation::Maybe,
            Condition::Atom(atom) => self.eval_atom(atom, test, features),
            Condition::All(parts) => self.eval_all(parts, test, features),
            Condition::Any(parts) => self.eval_any(parts, test, features),
            Condition::Not(inner) => self.eval(inner, test, features).not(),
        }
    }

    fn eval_all(&self, parts: &Vec<Condition>, test: bool, features: Option<&PackageFeatures>) -> (
    value: Activation)
        requires
            self.wf(),
            features matches Some(features) ==> features.wf(),
        ensures
            value == all_value(
                self.deep_view(),
                conditions_view(parts@),
                test,
                features.deep_view(),
            ),
        decreases parts,
    {
        let ghost told = self.deep_view();
        let ghost known = features.deep_view();
        let mut value = Activation::Always;
        let mut at: usize = 0;
        while at < parts.len()
            invariant
                self.wf(),
                features matches Some(features) ==> features.wf(),
                told == self.deep_view(),
                known == features.deep_view(),
                at <= parts.len(),
                value == all_value(told, conditions_view(parts@.take(at as int)), test, known),
            decreases parts.len() - at,
        {
            proof {
                let longer = parts@.take(at as int + 1);
                assert(longer.drop_last() =~= parts@.take(at as int));
                let list = conditions_view(longer);
                assert(list.drop_last() =~= conditions_view(parts@.take(at as int)));
                assert(list.last() == condition_view(parts@[at as int]));
                assert(decreases_to!(parts => parts@[at as int]));
            }
            value = value.and(self.eval(&parts[at], test, features));
            at = at + 1;
        }
        proof {
            assert(parts@.take(parts@.len() as int) =~= parts@);
        }
        value
    }

    fn eval_any(&self, parts: &Vec<Condition>, test: bool, features: Option<&PackageFeatures>) -> (
    value: Activation)
        requires
            self.wf(),
            features matches Some(features) ==> features.wf(),
        ensures
            value == any_value(
                self.deep_view(),
                conditions_view(parts@),
                test,
                features.deep_view(),
            ),
        decreases parts,
    {
        let ghost told = self.deep_view();
        let ghost known = features.deep_view();
        let mut value = Activation::Never;
        let mut at: usize = 0;
        while at < parts.len()
            invariant
                self.wf(),
                features matches Some(features) ==> features.wf(),
                told == self.deep_view(),
                known == features.deep_view(),
                at <= parts.len(),
                value == any_value(told, conditions_view(parts@.take(at as int)), test, known),
            decreases parts.len() - at,
        {
            proof {
                let longer = parts@.take(at as int + 1);
                assert(longer.drop_last() =~= parts@.take(at as int));
                let list = conditions_view(longer);
                assert(list.drop_last() =~= conditions_view(parts@.take(at as int)));
                assert(list.last() == condition_view(parts@[at as int]));
                assert(decreases_to!(parts => parts@[at as int]));
            }
            value = value.or(self.eval(&parts[at], test, features));
            at = at + 1;
        }
        proof {
            assert(parts@.take(parts@.len() as int) =~= parts@);
        }
        value
    }

    fn cfg_reachability(
        &self,
        condition: &Option<Condition>,
        features: Option<&PackageFeatures>,
    ) -> (gate: Reachability)
        requires
            self.wf(),
            features matches Some(features) ==> features.wf(),
        ensures
            gate == optional_gate(
                self.deep_view(),
                condition.deep_view(),
                features.deep_view(),
            ),
    {
        match condition {
            Some(condition) => Reachability {
                production: self.eval(condition, false, features),
                test: self.eval(condition, true, features),
            },
            None => Reachability::both(),
        }
    }

    /// A gate that only stands where a condition holds.
    pub fn conditional_gate(condition: Reachability, gate: Reachability) -> (combined: Reachability)
        ensures
            combined == gate_where(condition, gate),
    {
        Reachability {
            production: condition.production.not().or(gate.production),
            test: condition.test.not().or(gate.test),
        }
    }

    fn is_test_meta(&self, path: &str) -> (result: bool)
        requires
            self.wf(),
        ensures
            result == self.deep_view().test_attributes.contains(compact(path@)),
    {
        self.test_attributes.contains(&without_spaces(path))
    }

    /// In which builds the code behind an attribute is.
    pub fn meta_gate(&self, meta: &AttributeMeta, features: Option<&PackageFeatures>) -> (gate: Reachability)
        requires
            self.wf(),
            features matches Some(features) ==> features.wf(),
        ensures
            gate == meta_gate_of(self.deep_view(), meta.deep_view(), features.deep_view()),
        decreases meta,
    {
        match meta {
            AttributeMeta::Cfg(condition) => self.cfg_reachability(condition, features),
            AttributeMeta::CfgAttr(condition, metas) => {
                let condition = self.cfg_reachability(condition, features);
                self.metas_gate(metas, condition, features)
            },
            AttributeMeta::Path(path) => if self.is_test_meta(path.as_str()) {
                Reachability::test()
            } else {
                Reachability::both()
            },
            AttributeMeta::Pathless => Reachability::both(),
        }
    }

    fn metas_gate(
        &self,
        metas: &Vec<AttributeMeta>,
        condition: Reachability,
        features: Option<&PackageFeatures>,
    ) -> (gate: Reachability)
        requires
            self.wf(),
            features matches Some(features) ==> features.wf(),
        ensures
            gate == metas_gate_of(
                self.deep_view(),
                metas_view(metas@),
                condition,
                features.deep_view(),
            ),
        decreases metas,
    {
        let ghost told = self.deep_view();
        let ghost known = features.deep_view();
        let mut gate = Reachability::both();
        let mut at: usize = 0;
        while at < metas.len()
            invariant
                self.wf(),
                features matches Some(features) ==> features.wf(),
                told == self.deep_view(),
                known == features.deep_view(),
                at <= metas.len(),
                gate == metas_gate_of(told, metas_view(metas@.take(at as int)), condition, known),
            decreases metas.len() - at,
        {
            proof {
                let longer = metas@.take(at as int + 1);
                assert(longer.drop_last() =~= metas@.take(at as int));
                let list = metas_view(longer);
                assert(list.drop_last() =~= metas_view(metas@.take(at as int)));
                assert(list.last() == meta_view(metas@[at as int]));
                assert(decreases_to!(metas => metas@[at as int]));
            }
            let nested = self.meta_gate(&metas[at], features);
            gate = gate.and(Self::conditional_gate(condition, nested));
            at = at + 1;
        }
        proof {
            assert(metas@.take(metas@.len() as int) =~= metas@);
        }
        gate
    }

    /// In which builds an item with some attributes is.
    pub fn node_gate(&self, attributes: &Vec<Option<AttributeMeta>>, features: Option<&PackageFeatures>) -> (
    gate: Reachability)
        requires
            self.wf(),
            features matches Some(features) ==> features.wf(),
        ensures
            gate == attributes_gate(
                self.deep_view(),
                attributes.deep_view(),
                features.deep_view(),
            ),
    {
        let ghost told = self.deep_view();
        let ghost known = features.deep_view();
        let ghost all = attributes.deep_view();
        let mut gate = Reachability::both();
        let mut at: usize = 0;
        proof {
            assert(all.take(0) =~= Seq::<Option<AttributeMetaView>>::empty());
        }
        while at < attributes.len()
            invariant
                self.wf(),
                features matches Some(features) ==> features.wf(),
                told == self.deep_view(),
                known == features.deep_view(),
                all == attributes.deep_view(),
                at <= all.len(),
                gate == attributes_gate(told, all.take(at as int), known),
            decreases all.len() - at,
        {
            proof {
                assert(all.take(at as int + 1).drop_last() =~= all.take(at as int));
                assert(all[at as int] == attributes[at as int].deep_view());
            }
            let next = match &attributes[at] {
                Some(meta) => self.meta_gate(meta, features),
                None => Reachability::both(),
            };
            gate = gate.and(next);
            at = at + 1;
        }
        proof {
            assert(all.take(all.len() as int) =~= all);
        }
        gate
    }

    /// In which builds the first item of some source is. Source whose bytes cannot be counted in
    /// 32 bits is not read: no item is found in it.
    pub fn item_gate(&self, source: &str, features: Option<&PackageFeatures>) -> (gate: Option<
        Reachability,
    >)
        requires
            self.wf(),
            features matches Some(features) ==> features.wf(),
        ensures
            gate == if byte_length(source@) <= u32::MAX {
                match item_attributes(source@) {
                    Some(attributes) => Some(
                        attributes_gate(self.deep_view(), attributes, features.deep_view()),
                    ),
                    None => None,
                }
            } else {
                None
            },
    {
        if utf8_length(source) > u32::MAX as u128 {
            return None;
        }
        match read_item_attributes(source) {
            Some(attributes) => Some(self.node_gate(&attributes, features)),
            None => None,
        }
    }
}

/// Another attribute never lets code into more builds.
pub proof fn law_attributes_only_narrow(
    profile: CfgProfileView,
    attributes: Seq<Option<AttributeMetaView>>,
    attribute: Option<AttributeMetaView>,
    features: Option<PackageFeaturesView>,
)
    ensures
        ({
            let before = attributes_gate(profile, attributes, features);
            let now = attributes_gate(profile, attributes.push(attribute), features);
            now.production.level() <= before.production.level() && now.test.level()
                <= before.test.level()
        }),
{
    assert(attributes.push(attribute).drop_last() =~= attributes);
}

/// A condition on tests holds in every test build and in no other, whatever else is known.
pub proof fn law_test_condition_is_decided(
    profile: CfgProfileView,
    features: Option<PackageFeaturesView>,
)
    ensures
        condition_gate(
            profile,
            ConditionView::Atom(AtomView::Flag("test"@)),
            features,
        ) == Reachability::test(),
{
}

/// A build: which atoms hold in it.
pub type Build = spec_fn(AtomView) -> bool;

/// Whether a build is one that a configuration allows. Tests are set in test builds only. Features
/// are set as the package has them. What is known to be set is set, what is known not to be set is
/// not, and of the names that every compiler knows nothing else is set. Anything else is open.
pub open spec fn allows(
    profile: CfgProfileView,
    build: Build,
    test: bool,
    features: Option<PackageFeaturesView>,
) -> bool {
    forall|atom: AtomView| #[trigger] atom_allowed(profile, build(atom), atom, test, features)
}

/// Whether an atom may be set, or not set, in a build that a configuration allows.
pub open spec fn atom_allowed(
    profile: CfgProfileView,
    set: bool,
    atom: AtomView,
    test: bool,
    features: Option<PackageFeaturesView>,
) -> bool {
    let (name, text) = match atom {
        AtomView::Flag(name) => (name, name),
        AtomView::KeyValue { key, value } => (key, key + "="@ + value),
    };
    let reserved = name == "test"@ || name == "doctest"@ || name == "true"@ || name == "false"@
        || name == "feature"@;
    &&& name == "test"@ || name == "doctest"@ ==> set == test
    &&& name == "true"@ ==> set
    &&& name == "false"@ ==> !set
    &&& atom is KeyValue && name == "feature"@ && features is Some ==> set == (
    features->0.enabled.contains(atom->value) && !features->0.excluded.contains(atom->value))
    &&& !reserved && profile.known_true.contains(text) ==> set
    &&& !reserved && !profile.known_true.contains(text) && (profile.known_false.contains(text)
        || profile.builtin_names.contains(name)) ==> !set
}

/// Whether a condition holds in a build.
pub open spec fn holds(build: Build, condition: ConditionView) -> bool
    decreases condition,
{
    match condition {
        ConditionView::Invalid => false,
        ConditionView::Atom(atom) => build(atom),
        ConditionView::All(parts) => forall|i: int|
            0 <= i < parts.len() ==> holds(build, #[trigger] parts[i]),
        ConditionView::Any(parts) => exists|i: int|
            0 <= i < parts.len() && holds(build, #[trigger] parts[i]),
        ConditionView::Not(inner) => !holds(build, *inner),
    }
}

/// Whether a condition has no part that could not be read.
pub open spec fn readable(condition: ConditionView) -> bool
    decreases condition,
{
    match condition {
        ConditionView::Invalid => false,
        ConditionView::Atom(_) => true,
        ConditionView::All(parts) => forall|i: int|
            0 <= i < parts.len() ==> readable(#[trigger] parts[i]),
        ConditionView::Any(parts) => forall|i: int|
            0 <= i < parts.len() ==> readable(#[trigger] parts[i]),
        ConditionView::Not(inner) => readable(*inner),
    }
}

/// What always holds, holds in every build that the configuration allows; what never holds, holds
/// in none.
pub proof fn law_conditions_are_judged_by_builds(
    profile: CfgProfileView,
    build: Build,
    condition: ConditionView,
    test: bool,
    features: Option<PackageFeaturesView>,
)
    requires
        allows(profile, build, test, features),
        readable(condition),
    ensures
        condition_value(profile, condition, test, features) == Activation::Always ==> holds(
            build,
            condition,
        ),
        condition_value(profile, condition, test, features) == Activation::Never ==> !holds(
            build,
            condition,
        ),
    decreases condition,
{
    match condition {
        ConditionView::Invalid => {},
        ConditionView::Atom(atom) => {
            assert(atom_allowed(profile, build(atom), atom, test, features));
        },
        ConditionView::All(parts) => {
            lemma_all_value(profile, parts, test, features);
            assert forall|i: int| 0 <= i < parts.len() implies (condition_value(
                profile,
                #[trigger] parts[i],
                test,
                features,
            ) == Activation::Always ==> holds(build, parts[i])) && (condition_value(
                profile,
                parts[i],
                test,
                features,
            ) == Activation::Never ==> !holds(build, parts[i])) by {
                assert(readable(parts[i]));
                law_conditions_are_judged_by_builds(profile, build, parts[i], test, features);
            }
            if all_value(profile, parts, test, features) == Activation::Never {
                let i = choose|i: int|
                    0 <= i < parts.len() && condition_value(
                        profile,
                        #[trigger] parts[i],
                        test,
                        features,
                    ) == Activation::Never;
                assert(!holds(build, parts[i]));
            }
        },
        ConditionView::Any(parts) => {
            lemma_any_value(profile, parts, test, features);
            assert forall|i: int| 0 <= i < parts.len() implies (condition_value(
                profile,
                #[trigger] parts[i],
                test,
                features,
            ) == Activation::Always ==> holds(build, parts[i])) && (condition_value(
                profile,
                parts[i],
                test,
                features,
            ) == Activation::Never ==> !holds(build, parts[i])) by {
                assert(readable(parts[i]));
                law_conditions_are_judged_by_builds(profile, build, parts[i], test, features);
            }
            if any_value(profile, parts, test, features) == Activation::Always {
                let i = choose|i: int|
                    0 <= i < parts.len() && condition_value(
                        profile,
                        #[trigger] parts[i],
                        test,
                        features,
                    ) == Activation::Always;
                assert(holds(build, parts[i]));
            }
        },
        ConditionView::Not(inner) => {
            law_conditions_are_judged_by_builds(profile, build, *inner, test, features);
        },
    }
}

/// Conditions that are asked for together: all hold just where each does, and fail just where one
/// does.
proof fn lemma_all_value(
    profile: CfgProfileView,
    parts: Seq<ConditionView>,
    test: bool,
    features: Option<PackageFeaturesView>,
)
    ensures
        all_value(profile, parts, test, features) == Activation::Always <==> forall|i: int|
            0 <= i < parts.len() ==> condition_value(profile, #[trigger] parts[i], test, features)
                == Activation::Always,
        all_value(profile, parts, test, features) == Activation::Never <==> exists|i: int|
            0 <= i < parts.len() && condition_value(profile, #[trigger] parts[i], test, features)
                == Activation::Never,
    decreases parts.len(),
{
    if parts.len() > 0 {
        let head = parts.drop_last();
        lemma_all_value(profile, head, test, features);
        let value = |part: ConditionView| condition_value(profile, part, test, features);
        assert forall|i: int| 0 <= i < head.len() implies #[trigger] head[i] == parts[i] by {}
        assert(parts[parts.len() - 1] == parts.last());
        if all_value(profile, parts, test, features) == Activation::Always {
            assert forall|i: int| 0 <= i < parts.len() implies condition_value(
                profile,
                #[trigger] parts[i],
                test,
                features,
            ) == Activation::Always by {
                if i < head.len() {
                    assert(head[i] == parts[i]);
                }
            }
        }
        if all_value(profile, head, test, features) == Activation::Never {
            let i = choose|i: int| 0 <= i < head.len() && value(#[trigger] head[i])
                == Activation::Never;
            assert(value(parts[i]) == Activation::Never);
        }
        if exists|i: int|
            0 <= i < parts.len() && condition_value(profile, #[trigger] parts[i], test, features)
                == Activation::Never {
            let i = choose|i: int|
                0 <= i < parts.len() && condition_value(profile, #[trigger] parts[i], test, features)
                    == Activation::Never;
            if i < head.len() {
                assert(condition_value(profile, head[i], test, features) == Activation::Never);
            }
        }
    }
}

/// Conditions of which one is asked for: one holds just where some does, and none just where each
/// fails.
proof fn lemma_any_value(
    profile: CfgProfileView,
    parts: Seq<ConditionView>,
    test: bool,
    features: Option<PackageFeaturesView>,
)
    ensures
        any_value(profile, parts, test, features) == Activation::Never <==> forall|i: int|
            0 <= i < parts.len() ==> condition_value(profile, #[trigger] parts[i], test, features)
                == Activation::Never,
        any_value(profile, parts, test, features) == Activation::Always <==> exists|i: int|
            0 <= i < parts.len() && condition_value(profile, #[trigger] parts[i], test, features)
                == Activation::Always,
    decreases parts.len(),
{
    if parts.len() > 0 {
        let head = parts.drop_last();
        lemma_any_value(profile, head, test, features);
        let value = |part: ConditionView| condition_value(profile, part, test, features);
        assert forall|i: int| 0 <= i < head.len() implies #[trigger] head[i] == parts[i] by {}
        assert(parts[parts.len() - 1] == parts.last());
        if any_value(profile, parts, test, features) == Activation::Never {
            assert forall|i: int| 0 <= i < parts.len() implies condition_value(
                profile,
                #[trigger] parts[i],
                test,
                features,
            ) == Activation::Never by {
                if i < head.len() {
                    assert(head[i] == parts[i]);
                }
            }
        }
        if any_value(profile, head, test, features) == Activation::Always {
            let i = choose|i: int| 0 <= i < head.len() && value(#[trigger] head[i])
                == Activation::Always;
            assert(value(parts[i]) == Activation::Always);
        }
        if exists|i: int|
            0 <= i < parts.len() && condition_value(profile, #[trigger] parts[i], test, features)
                == Activation::Always {
            let i = choose|i: int|
                0 <= i < parts.len() && condition_value(profile, #[trigger] parts[i], test, features)
                    == Activation::Always;
            if i < head.len() {
                assert(condition_value(profile, head[i], test, features) == Activation::Always);
            }
        }
    }
}

/// An atom is left open just where builds that the configuration allows may differ in it: it may
/// be set, and it may be not set.
pub proof fn law_open_atoms_are_undecided(
    profile: CfgProfileView,
    atom: AtomView,
    test: bool,
    features: Option<PackageFeaturesView>,
)
    ensures
        atom_value(profile, atom, test, features) == Activation::Maybe <==> atom_allowed(
            profile,
            true,
            atom,
            test,
            features,
        ) && atom_allowed(profile, false, atom, test, features),
        atom_value(profile, atom, test, features) == Activation::Always <==> !atom_allowed(
            profile,
            false,
            atom,
            test,
            features,
        ),
        atom_value(profile, atom, test, features) == Activation::Never <==> !atom_allowed(
            profile,
            true,
            atom,
            test,
            features,
        ),
{
    reveal_strlit("test");
    reveal_strlit("doctest");
    reveal_strlit("true");
    reveal_strlit("false");
    reveal_strlit("feature");
    assert("test"@[1] != "true"@[1]);
    assert("false"@.len() == 5 && "true"@.len() == 4 && "test"@.len() == 4);
    assert("doctest"@.len() == 7 && "feature"@.len() == 7 && "doctest"@[0] != "feature"@[0]);
}

/// A name that every compiler knows is decided: an atom of it, with a value or without, holds just
/// where it is known to hold.
pub proof fn law_builtin_names_are_decided(
    profile: CfgProfileView,
    key: Seq<char>,
    value: Seq<char>,
    test: bool,
    features: Option<PackageFeaturesView>,
)
    requires
        profile.builtin_names.contains(key),
        key != "test"@,
        key != "doctest"@,
        key != "true"@,
        key != "false"@,
        key != "feature"@,
    ensures
        atom_value(profile, AtomView::KeyValue { key, value }, test, features)
            == Activation::Always <==> profile.known_true.contains(key + "="@ + value),
        atom_value(profile, AtomView::KeyValue { key, value }, test, features)
            != Activation::Maybe,
        atom_value(profile, AtomView::Flag(key), test, features) == Activation::Always
            <==> profile.known_true.contains(key),
        atom_value(profile, AtomView::Flag(key), test, features) != Activation::Maybe,
{
}

/// A feature is on in all builds just where the package enables and does not exclude it, and off in
/// all others; without knowledge of the package it is open. It is the same in test builds.
pub proof fn law_features_are_the_packages(
    profile: CfgProfileView,
    feature: Seq<char>,
    test: bool,
    features: PackageFeaturesView,
)
    ensures
        ({
            let atom = AtomView::KeyValue { key: "feature"@, value: feature };
            let value = atom_value(profile, atom, test, Some(features));
            &&& value == Activation::Always <==> features.enabled.contains(feature)
                && !features.excluded.contains(feature)
            &&& value != Activation::Maybe
            &&& atom_value(profile, atom, test, None) == Activation::Maybe
        }),
{
    reveal_strlit("test");
    reveal_strlit("doctest");
    reveal_strlit("true");
    reveal_strlit("false");
    reveal_strlit("feature");
    assert("false"@.len() == 5 && "true"@.len() == 4 && "test"@.len() == 4);
    assert("doctest"@.len() == 7 && "feature"@.len() == 7 && "doctest"@[0] != "feature"@[0]);
}

/// Whether an item with an attribute is part of a build.
pub open spec fn lets_in(
    profile: CfgProfileView,
    build: Build,
    test: bool,
    meta: AttributeMetaView,
) -> bool
    decreases meta,
{
    match meta {
        AttributeMetaView::Cfg(Some(condition)) => holds(build, condition),
        AttributeMetaView::CfgAttr(Some(condition), metas) => holds(build, condition) ==> forall|
            i: int,
        |
            0 <= i < metas.len() ==> lets_in(profile, build, test, #[trigger] metas[i]),
        AttributeMetaView::CfgAttr(None, metas) => forall|i: int|
            0 <= i < metas.len() ==> lets_in(profile, build, test, #[trigger] metas[i]),
        AttributeMetaView::Path(path) => profile.test_attributes.contains(compact(path)) ==> test,
        AttributeMetaView::Cfg(None) | AttributeMetaView::Pathless => true,
    }
}

/// Whether all conditions of an attribute can be read.
pub open spec fn legible(meta: AttributeMetaView) -> bool
    decreases meta,
{
    match meta {
        AttributeMetaView::Cfg(Some(condition)) => readable(condition),
        AttributeMetaView::CfgAttr(condition, metas) => (condition matches Some(condition)
            ==> readable(condition)) && forall|i: int|
            0 <= i < metas.len() ==> legible(#[trigger] metas[i]),
        _ => true,
    }
}

/// The activation of a gate in production builds, or in test builds.
pub open spec fn side(gate: Reachability, test: bool) -> Activation {
    if test {
        gate.test
    } else {
        gate.production
    }
}

/// What an attribute always lets in is in every build that the configuration allows; what it never
/// lets in is in none.
pub proof fn law_attributes_are_judged_by_builds(
    profile: CfgProfileView,
    build: Build,
    meta: AttributeMetaView,
    test: bool,
    features: Option<PackageFeaturesView>,
)
    requires
        allows(profile, build, test, features),
        legible(meta),
    ensures
        side(meta_gate_of(profile, meta, features), test) == Activation::Always ==> lets_in(
            profile,
            build,
            test,
            meta,
        ),
        side(meta_gate_of(profile, meta, features), test) == Activation::Never ==> !lets_in(
            profile,
            build,
            test,
            meta,
        ),
    decreases meta,
{
    match meta {
        AttributeMetaView::Cfg(Some(condition)) => {
            law_conditions_are_judged_by_builds(profile, build, condition, test, features);
        },
        AttributeMetaView::CfgAttr(condition, metas) => {
            if let Some(condition) = condition {
                law_conditions_are_judged_by_builds(profile, build, condition, test, features);
            }
            assert forall|i: int| 0 <= i < metas.len() implies (side(
                meta_gate_of(profile, #[trigger] metas[i], features),
                test,
            ) == Activation::Always ==> lets_in(profile, build, test, metas[i])) && (side(
                meta_gate_of(profile, metas[i], features),
                test,
            ) == Activation::Never ==> !lets_in(profile, build, test, metas[i])) by {
                assert(legible(metas[i]));
                law_attributes_are_judged_by_builds(profile, build, metas[i], test, features);
            }
            lemma_metas_gate(
                profile,
                metas,
                optional_gate(profile, condition, features),
                features,
                test,
            );
            let inner = |i: int| side(meta_gate_of(profile, metas[i], features), test);
            if side(meta_gate_of(profile, meta, features), test) == Activation::Never {
                let i = choose|i: int|
                    0 <= i < metas.len() && side(
                        meta_gate_of(profile, #[trigger] metas[i], features),
                        test,
                    ) == Activation::Never;
                assert(!lets_in(profile, build, test, metas[i]));
            }
        },
        _ => {},
    }
}

/// Attributes that stand where a condition holds: they let code in just where the condition fails
/// or each lets it in, and keep it out just where the condition holds and one keeps it out.
proof fn lemma_metas_gate(
    profile: CfgProfileView,
    metas: Seq<AttributeMetaView>,
    condition: Reachability,
    features: Option<PackageFeaturesView>,
    test: bool,
)
    ensures
        ({
            let gate = side(metas_gate_of(profile, metas, condition, features), test);
            let stands = side(condition, test);
            &&& gate == Activation::Always <==> stands == Activation::Never || forall|i: int|
                0 <= i < metas.len() ==> side(
                    meta_gate_of(profile, #[trigger] metas[i], features),
                    test,
                ) == Activation::Always
            &&& gate == Activation::Never <==> stands == Activation::Always && exists|i: int|
                0 <= i < metas.len() && side(
                    meta_gate_of(profile, #[trigger] metas[i], features),
                    test,
                ) == Activation::Never
        }),
    decreases metas.len(),
{
    if metas.len() > 0 {
        let head = metas.drop_last();
        lemma_metas_gate(profile, head, condition, features, test);
        let inner = |meta: AttributeMetaView| side(meta_gate_of(profile, meta, features), test);
        assert forall|i: int| 0 <= i < head.len() implies #[trigger] head[i] == metas[i] by {}
        assert(metas[metas.len() - 1] == metas.last());
        assert forall|i: int| 0 <= i < metas.len() implies (i < head.len() && #[trigger] metas[i]
            == head[i]) || metas[i] == metas.last() by {}
        if side(condition, test) == Activation::Always && side(
            metas_gate_of(profile, head, condition, features),
            test,
        ) == Activation::Never {
            let i = choose|i: int| 0 <= i < head.len() && side(
                meta_gate_of(profile, #[trigger] head[i], features),
                test,
            ) == Activation::Never;
            assert(side(meta_gate_of(profile, metas[i], features), test) == Activation::Never);
        }
        if exists|i: int|
            0 <= i < metas.len() && side(meta_gate_of(profile, #[trigger] metas[i], features), test)
                == Activation::Never {
            let i = choose|i: int|
                0 <= i < metas.len() && side(
                    meta_gate_of(profile, #[trigger] metas[i], features),
                    test,
                ) == Activation::Never;
            if i < head.len() {
                assert(side(meta_gate_of(profile, head[i], features), test) == Activation::Never);
            }
        }
        if forall|i: int|
            0 <= i < head.len() ==> side(meta_gate_of(profile, #[trigger] head[i], features), test)
                == Activation::Always {
            assert forall|i: int| 0 <= i < metas.len() - 1 implies side(
                meta_gate_of(profile, #[trigger] metas[i], features),
                test,
            ) == Activation::Always by {
                assert(head[i] == metas[i]);
            }
        }
    }
}

/// An item is in all builds of a kind just where each of its attributes lets it in, and in none
/// just where one keeps it out.
pub proof fn law_items_pass_all_attributes(
    profile: CfgProfileView,
    attributes: Seq<Option<AttributeMetaView>>,
    features: Option<PackageFeaturesView>,
    test: bool,
)
    ensures
        ({
            let gate = side(attributes_gate(profile, attributes, features), test);
            &&& gate == Activation::Always <==> forall|i: int|
                0 <= i < attributes.len() && (#[trigger] attributes[i]) is Some ==> side(
                    meta_gate_of(profile, attributes[i]->0, features),
                    test,
                ) == Activation::Always
            &&& gate == Activation::Never <==> exists|i: int|
                0 <= i < attributes.len() && (#[trigger] attributes[i]) is Some && side(
                    meta_gate_of(profile, attributes[i]->0, features),
                    test,
                ) == Activation::Never
        }),
    decreases attributes.len(),
{
    if attributes.len() > 0 {
        let head = attributes.drop_last();
        law_items_pass_all_attributes(profile, head, features, test);
        assert forall|i: int| 0 <= i < head.len() implies #[trigger] head[i] == attributes[i] by {}
        assert(attributes[attributes.len() - 1] == attributes.last());
        if side(attributes_gate(profile, head, features), test) == Activation::Never {
            let i = choose|i: int|
                0 <= i < head.len() && (#[trigger] head[i]) is Some && side(
                    meta_gate_of(profile, head[i]->0, features),
                    test,
                ) == Activation::Never;
            assert(attributes[i] is Some);
        }
        if exists|i: int|
            0 <= i < attributes.len() && (#[trigger] attributes[i]) is Some && side(
                meta_gate_of(profile, attributes[i]->0, features),
                test,
            ) == Activation::Never {
            let i = choose|i: int|
                0 <= i < attributes.len() && (#[trigger] attributes[i]) is Some && side(
                    meta_gate_of(profile, attributes[i]->0, features),
                    test,
                ) == Activation::Never;
            if i < head.len() {
                assert(head[i] is Some);
            }
        }
        if forall|i: int|
            0 <= i < head.len() && (#[trigger] head[i]) is Some ==> side(
                meta_gate_of(profile, head[i]->0, features),
                test,
            ) == Activation::Always {
            assert forall|i: int|
                0 <= i < attributes.len() - 1 && (#[trigger] attributes[i]) is Some implies side(
                meta_gate_of(profile, attributes[i]->0, features),
                test,
            ) == Activation::Always by {
                assert(head[i] is Some);
            }
        }
        if forall|i: int|
            0 <= i < attributes.len() && (#[trigger] attributes[i]) is Some ==> side(
                meta_gate_of(profile, attributes[i]->0, features),
                test,
            ) == Activation::Always {
            assert forall|i: int| 0 <= i < head.len() && (#[trigger] head[i]) is Some implies side(
                meta_gate_of(profile, head[i]->0, features),
                test,
            ) == Activation::Always by {
                assert(attributes[i] is Some);
            }
        }
    }
}

} // verus!
