//! The records that a compiler run hands to the analysis.

use vstd::prelude::*;

use crate::order::{Ordered, Rank};

verus! {

/// The version of the record format.
pub const PROTOCOL_VERSION: u32 = 5;

/// The version of the collecting driver.
pub const DRIVER_VERSION: u32 = 5;

/// The variable that holds the name of a run.
pub const RUN_ID_ENV: &'static str = "ROT_COMPILER_RUN_ID";

/// The variable that holds where facts are left.
pub const SIDECAR_DIR_ENV: &'static str = "ROT_COMPILER_SIDECAR_DIR";

/// The variable that holds where the manifests of selected packages are.
pub const SELECTED_MANIFEST_DIRS_ENV: &'static str = "ROT_COMPILER_SELECTED_MANIFEST_DIRS";

/// The variable that holds where Cargo leaves what it builds.
pub const TARGET_DIR_ENV: &'static str = "ROT_COMPILER_TARGET_DIR";

/// The variable that holds where Cargo builds.
pub const BUILD_DIR_ENV: &'static str = "ROT_COMPILER_BUILD_DIR";

/// The argument that asks a driver for its handshake.
pub const HANDSHAKE_ARG: &'static str = "--rot-handshake";

/// The largest sidecar that is written or read.
pub const MAX_SIDECAR_BYTES: u64 = 64 * 1024 * 1024;

/// One run of the analysis.
#[derive(Debug, PartialEq, Eq)]
pub struct RunId(pub String);

impl DeepView for RunId {
    type V = Seq<char>;

    open spec fn deep_view(&self) -> Seq<char> {
        self.0@
    }
}

impl Clone for RunId {
    fn clone(&self) -> (copy: Self)
        ensures
            copy.deep_view() == self.deep_view(),
    {
        RunId(self.0.clone())
    }
}

impl Ordered for RunId {
    open spec fn precedes(a: Seq<char>, b: Seq<char>) -> bool {
        <String as Ordered>::precedes(a, b)
    }

    proof fn irreflexive(a: Seq<char>) {
        <String as Ordered>::irreflexive(a);
    }

    proof fn transitive(a: Seq<char>, b: Seq<char>, c: Seq<char>) {
        <String as Ordered>::transitive(a, b, c);
    }

    proof fn total(a: Seq<char>, b: Seq<char>) {
        <String as Ordered>::total(a, b);
    }

    fn rank(&self, other: &Self) -> (rank: Rank) {
        self.0.rank(&other.0)
    }
}

/// One compiler process of a run.
#[derive(Debug, PartialEq, Eq)]
pub struct InvocationId(pub String);

impl DeepView for InvocationId {
    type V = Seq<char>;

    open spec fn deep_view(&self) -> Seq<char> {
        self.0@
    }
}

impl Clone for InvocationId {
    fn clone(&self) -> (copy: Self)
        ensures
            copy.deep_view() == self.deep_view(),
    {
        InvocationId(self.0.clone())
    }
}

impl Ordered for InvocationId {
    open spec fn precedes(a: Seq<char>, b: Seq<char>) -> bool {
        <String as Ordered>::precedes(a, b)
    }

    proof fn irreflexive(a: Seq<char>) {
        <String as Ordered>::irreflexive(a);
    }

    proof fn transitive(a: Seq<char>, b: Seq<char>, c: Seq<char>) {
        <String as Ordered>::transitive(a, b, c);
    }

    proof fn total(a: Seq<char>, b: Seq<char>) {
        <String as Ordered>::total(a, b);
    }

    fn rank(&self, other: &Self) -> (rank: Rank) {
        self.0.rank(&other.0)
    }
}

/// What identifies a compiler invocation across runs.
#[derive(Debug, PartialEq, Eq)]
pub struct InvocationMergeKey(pub String);

impl DeepView for InvocationMergeKey {
    type V = Seq<char>;

    open spec fn deep_view(&self) -> Seq<char> {
        self.0@
    }
}

impl Clone for InvocationMergeKey {
    fn clone(&self) -> (copy: Self)
        ensures
            copy.deep_view() == self.deep_view(),
    {
        InvocationMergeKey(self.0.clone())
    }
}

impl Ordered for InvocationMergeKey {
    open spec fn precedes(a: Seq<char>, b: Seq<char>) -> bool {
        <String as Ordered>::precedes(a, b)
    }

    proof fn irreflexive(a: Seq<char>) {
        <String as Ordered>::irreflexive(a);
    }

    proof fn transitive(a: Seq<char>, b: Seq<char>, c: Seq<char>) {
        <String as Ordered>::transitive(a, b, c);
    }

    proof fn total(a: Seq<char>, b: Seq<char>) {
        <String as Ordered>::total(a, b);
    }

    fn rank(&self, other: &Self) -> (rank: Rank) {
        self.0.rank(&other.0)
    }
}

/// The identity of a fact within its sidecar.
#[derive(Debug, PartialEq, Eq)]
pub struct FactId(pub String);

impl DeepView for FactId {
    type V = Seq<char>;

    open spec fn deep_view(&self) -> Seq<char> {
        self.0@
    }
}

impl Clone for FactId {
    fn clone(&self) -> (copy: Self)
        ensures
            copy.deep_view() == self.deep_view(),
    {
        FactId(self.0.clone())
    }
}

impl Ordered for FactId {
    open spec fn precedes(a: Seq<char>, b: Seq<char>) -> bool {
        <String as Ordered>::precedes(a, b)
    }

    proof fn irreflexive(a: Seq<char>) {
        <String as Ordered>::irreflexive(a);
    }

    proof fn transitive(a: Seq<char>, b: Seq<char>, c: Seq<char>) {
        <String as Ordered>::transitive(a, b, c);
    }

    proof fn total(a: Seq<char>, b: Seq<char>) {
        <String as Ordered>::total(a, b);
    }

    fn rank(&self, other: &Self) -> (rank: Rank) {
        self.0.rank(&other.0)
    }
}

/// The identity of a definition: its crate and its place within it.
#[derive(Clone, Copy, Debug, PartialEq, Eq, Structural)]
pub struct CompilerDefId {
    pub stable_crate_id: u64,
    pub local_hash: u64,
}

impl DeepView for CompilerDefId {
    type V = CompilerDefId;

    open spec fn deep_view(&self) -> CompilerDefId {
        *self
    }
}

/// Ordered field by field.
impl Ordered for CompilerDefId {
    open spec fn precedes(a: CompilerDefId, b: CompilerDefId) -> bool {
        <(u64, u64) as Ordered>::precedes(
            (a.stable_crate_id, a.local_hash),
            (b.stable_crate_id, b.local_hash),
        )
    }

    proof fn irreflexive(a: CompilerDefId) {
        <(u64, u64) as Ordered>::irreflexive((a.stable_crate_id, a.local_hash));
    }

    proof fn transitive(a: CompilerDefId, b: CompilerDefId, c: CompilerDefId) {
        <(u64, u64) as Ordered>::transitive(
            (a.stable_crate_id, a.local_hash),
            (b.stable_crate_id, b.local_hash),
            (c.stable_crate_id, c.local_hash),
        );
    }

    proof fn total(a: CompilerDefId, b: CompilerDefId) {
        <(u64, u64) as Ordered>::total((a.stable_crate_id, a.local_hash), (b.stable_crate_id, b.local_hash));
    }

    fn rank(&self, other: &Self) -> (rank: Rank) {
        match self.stable_crate_id.rank(&other.stable_crate_id) {
            Rank::Equal => {
                self.local_hash.rank(&other.local_hash)
            },
            decided => decided,
        }
    }
}

/// The identity of a source file within a sidecar.
#[derive(Debug, PartialEq, Eq)]
pub struct SourceFileKey(pub String);

impl DeepView for SourceFileKey {
    type V = Seq<char>;

    open spec fn deep_view(&self) -> Seq<char> {
        self.0@
    }
}

impl Clone for SourceFileKey {
    fn clone(&self) -> (copy: Self)
        ensures
            copy.deep_view() == self.deep_view(),
    {
        SourceFileKey(self.0.clone())
    }
}

impl Ordered for SourceFileKey {
    open spec fn precedes(a: Seq<char>, b: Seq<char>) -> bool {
        <String as Ordered>::precedes(a, b)
    }

    proof fn irreflexive(a: Seq<char>) {
        <String as Ordered>::irreflexive(a);
    }

    proof fn transitive(a: Seq<char>, b: Seq<char>, c: Seq<char>) {
        <String as Ordered>::transitive(a, b, c);
    }

    proof fn total(a: Seq<char>, b: Seq<char>) {
        <String as Ordered>::total(a, b);
    }

    fn rank(&self, other: &Self) -> (rank: Rank) {
        self.0.rank(&other.0)
    }
}

/// The exact compiler that produced a sidecar.
#[derive(Debug, PartialEq, Eq)]
pub struct CompilerIdentity {
    pub release: String,
    pub commit_hash: String,
    pub commit_date: String,
    pub host: String,
}

/// The model of [`CompilerIdentity`].
#[verifier::ext_equal]
pub struct CompilerIdentityView {
    pub release: Seq<char>,
    pub commit_hash: Seq<char>,
    pub commit_date: Seq<char>,
    pub host: Seq<char>,
}

impl DeepView for CompilerIdentity {
    type V = CompilerIdentityView;

    open spec fn deep_view(&self) -> CompilerIdentityView {
        CompilerIdentityView {
            release: self.release.deep_view(),
            commit_hash: self.commit_hash.deep_view(),
            commit_date: self.commit_date.deep_view(),
            host: self.host.deep_view(),
        }
    }
}

impl Clone for CompilerIdentity {
    fn clone(&self) -> (copy: Self)
        ensures
            copy.deep_view() == self.deep_view(),
    {
        let copy = CompilerIdentity {
            release: self.release.clone(),
            commit_hash: self.commit_hash.clone(),
            commit_date: self.commit_date.clone(),
            host: self.host.clone(),
        };
        copy
    }
}

/// What the driver says of itself.
#[derive(Debug, PartialEq, Eq)]
pub struct Handshake {
    pub protocol_version: u32,
    pub driver_version: u32,
    pub linked_rustc_version: String,
    pub rustc: CompilerIdentity,
    pub max_sidecar_bytes: u64,
}

/// The model of [`Handshake`].
#[verifier::ext_equal]
pub struct HandshakeView {
    pub protocol_version: u32,
    pub driver_version: u32,
    pub linked_rustc_version: Seq<char>,
    pub rustc: CompilerIdentityView,
    pub max_sidecar_bytes: u64,
}

impl DeepView for Handshake {
    type V = HandshakeView;

    open spec fn deep_view(&self) -> HandshakeView {
        HandshakeView {
            protocol_version: self.protocol_version,
            driver_version: self.driver_version,
            linked_rustc_version: self.linked_rustc_version.deep_view(),
            rustc: self.rustc.deep_view(),
            max_sidecar_bytes: self.max_sidecar_bytes,
        }
    }
}

impl Clone for Handshake {
    fn clone(&self) -> (copy: Self)
        ensures
            copy.deep_view() == self.deep_view(),
    {
        let copy = Handshake {
            protocol_version: self.protocol_version,
            driver_version: self.driver_version,
            linked_rustc_version: self.linked_rustc_version.clone(),
            rustc: self.rustc.clone(),
            max_sidecar_bytes: self.max_sidecar_bytes,
        };
        proof {
            assert(copy.rustc.deep_view() =~= self.rustc.deep_view());
        }
        copy
    }
}

/// Whether code is compiled for the host or for the target.
#[derive(Clone, Copy, Debug, PartialEq, Eq, Structural)]
pub enum CompilationContext {
    Host,
    Target,
}

impl DeepView for CompilationContext {
    type V = CompilationContext;

    open spec fn deep_view(&self) -> CompilationContext {
        *self
    }
}

impl CompilationContext {
    /// The place of the variant in the declaration.
    pub open spec fn place(self) -> u8 {
        match self {
            CompilationContext::Host => 0,
            CompilationContext::Target => 1,
        }
    }

    fn declared_at(self) -> (place: u8)
        ensures
            place == self.place(),
    {
        match self {
            CompilationContext::Host => 0,
            CompilationContext::Target => 1,
        }
    }
}

/// Ordered as declared.
impl Ordered for CompilationContext {
    open spec fn precedes(a: CompilationContext, b: CompilationContext) -> bool {
        a.place() < b.place()
    }

    proof fn irreflexive(a: CompilationContext) {
    }

    proof fn transitive(a: CompilationContext, b: CompilationContext, c: CompilationContext) {
    }

    proof fn total(a: CompilationContext, b: CompilationContext) {
    }

    fn rank(&self, other: &Self) -> (rank: Rank) {
        let left: u8 = self.declared_at();
        let right: u8 = other.declared_at();
        if left < right {
            Rank::Less
        } else if left == right {
            Rank::Equal
        } else {
            Rank::Greater
        }
    }
}

/// What Cargo asked the compiler to produce.
#[derive(Debug, PartialEq, Eq)]
pub struct ArtifactIdentity {
    pub out_dir: Option<String>,
    pub crate_name: String,
    pub crate_types: Vec<String>,
    pub extra_filename: Option<String>,
    pub metadata: Option<String>,
    pub emit: Vec<String>,
}

/// The model of [`ArtifactIdentity`].
#[verifier::ext_equal]
pub struct ArtifactIdentityView {
    pub out_dir: Option<Seq<char>>,
    pub crate_name: Seq<char>,
    pub crate_types: Seq<Seq<char>>,
    pub extra_filename: Option<Seq<char>>,
    pub metadata: Option<Seq<char>>,
    pub emit: Seq<Seq<char>>,
}

impl DeepView for ArtifactIdentity {
    type V = ArtifactIdentityView;

    open spec fn deep_view(&self) -> ArtifactIdentityView {
        ArtifactIdentityView {
            out_dir: self.out_dir.deep_view(),
            crate_name: self.crate_name.deep_view(),
            crate_types: self.crate_types.deep_view(),
            extra_filename: self.extra_filename.deep_view(),
            metadata: self.metadata.deep_view(),
            emit: self.emit.deep_view(),
        }
    }
}

impl Clone for ArtifactIdentity {
    fn clone(&self) -> (copy: Self)
        ensures
            copy.deep_view() == self.deep_view(),
    {
        let copy = ArtifactIdentity {
            out_dir: self.out_dir.clone(),
            crate_name: self.crate_name.clone(),
            crate_types: self.crate_types.clone(),
            extra_filename: self.extra_filename.clone(),
            metadata: self.metadata.clone(),
            emit: self.emit.clone(),
        };
        proof {
            assert(copy.out_dir.deep_view() =~= self.out_dir.deep_view());
            assert(copy.crate_types.deep_view() =~= self.crate_types.deep_view());
            assert(copy.extra_filename.deep_view() =~= self.extra_filename.deep_view());
            assert(copy.metadata.deep_view() =~= self.metadata.deep_view());
            assert(copy.emit.deep_view() =~= self.emit.deep_view());
        }
        copy
    }
}

/// The first record of a sidecar.
#[derive(Debug, PartialEq, Eq)]
pub struct InvocationStarted {
    pub merge_key: InvocationMergeKey,
    pub compiler: CompilerIdentity,
    pub process_id: u32,
    pub rustc_path: String,
    pub working_directory: String,
    pub manifest_dir: Option<String>,
    pub build_script_out_dir: Option<String>,
    pub package_name: Option<String>,
    pub primary_package: bool,
    pub test_mode: bool,
    pub target_triple: String,
    pub compilation_context: CompilationContext,
    pub crate_name: String,
    pub input: Option<String>,
    pub artifact: ArtifactIdentity,
}

/// The model of [`InvocationStarted`].
#[verifier::ext_equal]
pub struct InvocationStartedView {
    pub merge_key: Seq<char>,
    pub compiler: CompilerIdentityView,
    pub process_id: u32,
    pub rustc_path: Seq<char>,
    pub working_directory: Seq<char>,
    pub manifest_dir: Option<Seq<char>>,
    pub build_script_out_dir: Option<Seq<char>>,
    pub package_name: Option<Seq<char>>,
    pub primary_package: bool,
    pub test_mode: bool,
    pub target_triple: Seq<char>,
    pub compilation_context: CompilationContext,
    pub crate_name: Seq<char>,
    pub input: Option<Seq<char>>,
    pub artifact: ArtifactIdentityView,
}

impl DeepView for InvocationStarted {
    type V = InvocationStartedView;

    open spec fn deep_view(&self) -> InvocationStartedView {
        InvocationStartedView {
            merge_key: self.merge_key.deep_view(),
            compiler: self.compiler.deep_view(),
            process_id: self.process_id,
            rustc_path: self.rustc_path.deep_view(),
            working_directory: self.working_directory.deep_view(),
            manifest_dir: self.manifest_dir.deep_view(),
            build_script_out_dir: self.build_script_out_dir.deep_view(),
            package_name: self.package_name.deep_view(),
            primary_package: self.primary_package,
            test_mode: self.test_mode,
            target_triple: self.target_triple.deep_view(),
            compilation_context: self.compilation_context,
            crate_name: self.crate_name.deep_view(),
            input: self.input.deep_view(),
            artifact: self.artifact.deep_view(),
        }
    }
}

impl Clone for InvocationStarted {
    fn clone(&self) -> (copy: Self)
        ensures
            copy.deep_view() == self.deep_view(),
    {
        let copy = InvocationStarted {
            merge_key: self.merge_key.clone(),
            compiler: self.compiler.clone(),
            process_id: self.process_id,
            rustc_path: self.rustc_path.clone(),
            working_directory: self.working_directory.clone(),
            manifest_dir: self.manifest_dir.clone(),
            build_script_out_dir: self.build_script_out_dir.clone(),
            package_name: self.package_name.clone(),
            primary_package: self.primary_package,
            test_mode: self.test_mode,
            target_triple: self.target_triple.clone(),
            compilation_context: self.compilation_context,
            crate_name: self.crate_name.clone(),
            input: self.input.clone(),
            artifact: self.artifact.clone(),
        };
        proof {
            assert(copy.merge_key.deep_view() =~= self.merge_key.deep_view());
            assert(copy.compiler.deep_view() =~= self.compiler.deep_view());
            assert(copy.manifest_dir.deep_view() =~= self.manifest_dir.deep_view());
            assert(copy.build_script_out_dir.deep_view() =~= self.build_script_out_dir.deep_view());
            assert(copy.package_name.deep_view() =~= self.package_name.deep_view());
            assert(copy.input.deep_view() =~= self.input.deep_view());
            assert(copy.artifact.deep_view() =~= self.artifact.deep_view());
        }
        copy
    }
}

/// One active cfg: a name, with a value where it has one.
#[derive(Debug, PartialEq, Eq)]
pub struct CfgValue {
    pub name: String,
    pub value: Option<String>,
}

/// The model of [`CfgValue`].
#[verifier::ext_equal]
pub struct CfgValueView {
    pub name: Seq<char>,
    pub value: Option<Seq<char>>,
}

impl DeepView for CfgValue {
    type V = CfgValueView;

    open spec fn deep_view(&self) -> CfgValueView {
        CfgValueView {
            name: self.name.deep_view(),
            value: self.value.deep_view(),
        }
    }
}

impl Clone for CfgValue {
    fn clone(&self) -> (copy: Self)
        ensures
            copy.deep_view() == self.deep_view(),
    {
        let copy = CfgValue {
            name: self.name.clone(),
            value: self.value.clone(),
        };
        proof {
            assert(copy.value.deep_view() =~= self.value.deep_view());
        }
        copy
    }
}

/// Ordered field by field.
impl Ordered for CfgValue {
    open spec fn precedes(a: CfgValueView, b: CfgValueView) -> bool {
        <(String, Option<String>) as Ordered>::precedes(
            (a.name, a.value),
            (b.name, b.value),
        )
    }

    proof fn irreflexive(a: CfgValueView) {
        <(String, Option<String>) as Ordered>::irreflexive((a.name, a.value));
    }

    proof fn transitive(a: CfgValueView, b: CfgValueView, c: CfgValueView) {
        <(String, Option<String>) as Ordered>::transitive(
            (a.name, a.value),
            (b.name, b.value),
            (c.name, c.value),
        );
    }

    proof fn total(a: CfgValueView, b: CfgValueView) {
        <(String, Option<String>) as Ordered>::total((a.name, a.value), (b.name, b.value));
    }

    fn rank(&self, other: &Self) -> (rank: Rank) {
        match self.name.rank(&other.name) {
            Rank::Equal => {
                self.value.rank(&other.value)
            },
            decided => decided,
        }
    }
}

/// The optimization level of a compiler session.
#[derive(Clone, Copy, Debug, PartialEq, Eq, Structural)]
pub enum OptimizationLevel {
    Unoptimized,
    Less,
    More,
    Aggressive,
    Size,
    SizeMin,
}

impl DeepView for OptimizationLevel {
    type V = OptimizationLevel;

    open spec fn deep_view(&self) -> OptimizationLevel {
        *self
    }
}

/// What a panic does.
#[derive(Clone, Copy, Debug, PartialEq, Eq, Structural)]
pub enum PanicStrategy {
    Unwind,
    Abort,
    ImmediateAbort,
}

impl DeepView for PanicStrategy {
    type V = PanicStrategy;

    open spec fn deep_view(&self) -> PanicStrategy {
        *self
    }
}

/// The code generation settings of a compiler session.
#[derive(Debug, PartialEq, Eq)]
pub struct CodegenProfile {
    pub optimization: OptimizationLevel,
    pub panic: PanicStrategy,
    pub debug_assertions: bool,
    pub overflow_checks: bool,
    pub codegen_units: usize,
    pub target_cpu: String,
    pub target_features: Vec<String>,
}

/// The model of [`CodegenProfile`].
#[verifier::ext_equal]
pub struct CodegenProfileView {
    pub optimization: OptimizationLevel,
    pub panic: PanicStrategy,
    pub debug_assertions: bool,
    pub overflow_checks: bool,
    pub codegen_units: usize,
    pub target_cpu: Seq<char>,
    pub target_features: Seq<Seq<char>>,
}

impl DeepView for CodegenProfile {
    type V = CodegenProfileView;

    open spec fn deep_view(&self) -> CodegenProfileView {
        CodegenProfileView {
            optimization: self.optimization,
            panic: self.panic,
            debug_assertions: self.debug_assertions,
            overflow_checks: self.overflow_checks,
            codegen_units: self.codegen_units,
            target_cpu: self.target_cpu.deep_view(),
            target_features: self.target_features.deep_view(),
        }
    }
}

impl Clone for CodegenProfile {
    fn clone(&self) -> (copy: Self)
        ensures
            copy.deep_view() == self.deep_view(),
    {
        let copy = CodegenProfile {
            optimization: self.optimization,
            panic: self.panic,
            debug_assertions: self.debug_assertions,
            overflow_checks: self.overflow_checks,
            codegen_units: self.codegen_units,
            target_cpu: self.target_cpu.clone(),
            target_features: self.target_features.clone(),
        };
        proof {
            assert(copy.target_features.deep_view() =~= self.target_features.deep_view());
        }
        copy
    }
}

/// The settings of a compiler session.
#[derive(Debug, PartialEq, Eq)]
pub struct Profile {
    pub host_triple: String,
    pub target_triple: String,
    pub test_mode: bool,
    pub cfg: Vec<CfgValue>,
    pub features: Vec<String>,
    pub codegen: CodegenProfile,
}

/// The model of [`Profile`].
#[verifier::ext_equal]
pub struct ProfileView {
    pub host_triple: Seq<char>,
    pub target_triple: Seq<char>,
    pub test_mode: bool,
    pub cfg: Seq<CfgValueView>,
    pub features: Seq<Seq<char>>,
    pub codegen: CodegenProfileView,
}

impl DeepView for Profile {
    type V = ProfileView;

    open spec fn deep_view(&self) -> ProfileView {
        ProfileView {
            host_triple: self.host_triple.deep_view(),
            target_triple: self.target_triple.deep_view(),
            test_mode: self.test_mode,
            cfg: self.cfg.deep_view(),
            features: self.features.deep_view(),
            codegen: self.codegen.deep_view(),
        }
    }
}

impl Clone for Profile {
    fn clone(&self) -> (copy: Self)
        ensures
            copy.deep_view() == self.deep_view(),
    {
        let copy = Profile {
            host_triple: self.host_triple.clone(),
            target_triple: self.target_triple.clone(),
            test_mode: self.test_mode,
            cfg: self.cfg.clone(),
            features: self.features.clone(),
            codegen: self.codegen.clone(),
        };
        proof {
            assert(copy.cfg.deep_view() =~= self.cfg.deep_view());
            assert(copy.features.deep_view() =~= self.features.deep_view());
            assert(copy.codegen.deep_view() =~= self.codegen.deep_view());
        }
        copy
    }
}

/// A source file that the compiler read.
#[derive(Debug, PartialEq, Eq)]
pub struct SourceFile {
    pub key: SourceFileKey,
    pub local_path: Option<String>,
    pub remapped_path: String,
    pub source_hash_algorithm: String,
    pub source_hash: String,
    pub byte_len: u32,
    pub generated: bool,
}

/// The model of [`SourceFile`].
#[verifier::ext_equal]
pub struct SourceFileView {
    pub key: Seq<char>,
    pub local_path: Option<Seq<char>>,
    pub remapped_path: Seq<char>,
    pub source_hash_algorithm: Seq<char>,
    pub source_hash: Seq<char>,
    pub byte_len: u32,
    pub generated: bool,
}

impl DeepView for SourceFile {
    type V = SourceFileView;

    open spec fn deep_view(&self) -> SourceFileView {
        SourceFileView {
            key: self.key.deep_view(),
            local_path: self.local_path.deep_view(),
            remapped_path: self.remapped_path.deep_view(),
            source_hash_algorithm: self.source_hash_algorithm.deep_view(),
            source_hash: self.source_hash.deep_view(),
            byte_len: self.byte_len,
            generated: self.generated,
        }
    }
}

impl Clone for SourceFile {
    fn clone(&self) -> (copy: Self)
        ensures
            copy.deep_view() == self.deep_view(),
    {
        let copy = SourceFile {
            key: self.key.clone(),
            local_path: self.local_path.clone(),
            remapped_path: self.remapped_path.clone(),
            source_hash_algorithm: self.source_hash_algorithm.clone(),
            source_hash: self.source_hash.clone(),
            byte_len: self.byte_len,
            generated: self.generated,
        };
        proof {
            assert(copy.key.deep_view() =~= self.key.deep_view());
            assert(copy.local_path.deep_view() =~= self.local_path.deep_view());
        }
        copy
    }
}

/// A range of bytes of a source file.
#[derive(Debug, PartialEq, Eq)]
pub struct SourceSpan {
    pub file: SourceFileKey,
    pub start: u32,
    pub end: u32,
    /// One-based source line containing `start`.
    pub line: u32,
    /// One-based Unicode scalar column containing `start`.
    pub column: u32,
}

/// The model of [`SourceSpan`].
#[verifier::ext_equal]
pub struct SourceSpanView {
    pub file: Seq<char>,
    pub start: u32,
    pub end: u32,
    pub line: u32,
    pub column: u32,
}

impl DeepView for SourceSpan {
    type V = SourceSpanView;

    open spec fn deep_view(&self) -> SourceSpanView {
        SourceSpanView {
            file: self.file.deep_view(),
            start: self.start,
            end: self.end,
            line: self.line,
            column: self.column,
        }
    }
}

impl Clone for SourceSpan {
    fn clone(&self) -> (copy: Self)
        ensures
            copy.deep_view() == self.deep_view(),
    {
        let copy = SourceSpan {
            file: self.file.clone(),
            start: self.start,
            end: self.end,
            line: self.line,
            column: self.column,
        };
        proof {
            assert(copy.file.deep_view() =~= self.file.deep_view());
        }
        copy
    }
}

/// Ordered field by field.
impl Ordered for SourceSpan {
    open spec fn precedes(a: SourceSpanView, b: SourceSpanView) -> bool {
        <(SourceFileKey, (u32, (u32, (u32, u32)))) as Ordered>::precedes(
            (a.file, (a.start, (a.end, (a.line, a.column)))),
            (b.file, (b.start, (b.end, (b.line, b.column)))),
        )
    }

    proof fn irreflexive(a: SourceSpanView) {
        <(SourceFileKey, (u32, (u32, (u32, u32)))) as Ordered>::irreflexive((a.file, (a.start, (a.end, (a.line, a.column)))));
    }

    proof fn transitive(a: SourceSpanView, b: SourceSpanView, c: SourceSpanView) {
        <(SourceFileKey, (u32, (u32, (u32, u32)))) as Ordered>::transitive(
            (a.file, (a.start, (a.end, (a.line, a.column)))),
            (b.file, (b.start, (b.end, (b.line, b.column)))),
            (c.file, (c.start, (c.end, (c.line, c.column)))),
        );
    }

    proof fn total(a: SourceSpanView, b: SourceSpanView) {
        <(SourceFileKey, (u32, (u32, (u32, u32)))) as Ordered>::total((a.file, (a.start, (a.end, (a.line, a.column)))), (b.file, (b.start, (b.end, (b.line, b.column)))));
    }

    fn rank(&self, other: &Self) -> (rank: Rank) {
        match self.file.rank(&other.file) {
            Rank::Equal => {
                match self.start.rank(&other.start) {
                    Rank::Equal => {
                        match self.end.rank(&other.end) {
                            Rank::Equal => {
                                match self.line.rank(&other.line) {
                                    Rank::Equal => {
                                        self.column.rank(&other.column)
                                    },
                                    decided => decided,
                                }
                            },
                            decided => decided,
                        }
                    },
                    decided => decided,
                }
            },
            decided => decided,
        }
    }
}

/// What a definition defines.
#[derive(Clone, Copy, Debug, PartialEq, Eq, Structural)]
pub enum DefinitionKind {
    Crate,
    Module,
    Struct,
    Union,
    Enum,
    Variant,
    Trait,
    TypeAlias,
    ForeignType,
    TraitAlias,
    AssociatedType,
    Function,
    Constant,
    Static,
    Constructor,
    AssociatedFunction,
    AssociatedConstant,
    Macro,
    ExternCrate,
    Import,
    ForeignModule,
    OpaqueType,
    Field,
    Implementation,
}

impl DeepView for DefinitionKind {
    type V = DefinitionKind;

    open spec fn deep_view(&self) -> DefinitionKind {
        *self
    }
}

impl DefinitionKind {
    /// The place of the variant in the declaration.
    pub open spec fn place(self) -> u8 {
        match self {
            DefinitionKind::Crate => 0,
            DefinitionKind::Module => 1,
            DefinitionKind::Struct => 2,
            DefinitionKind::Union => 3,
            DefinitionKind::Enum => 4,
            DefinitionKind::Variant => 5,
            DefinitionKind::Trait => 6,
            DefinitionKind::TypeAlias => 7,
            DefinitionKind::ForeignType => 8,
            DefinitionKind::TraitAlias => 9,
            DefinitionKind::AssociatedType => 10,
            DefinitionKind::Function => 11,
            DefinitionKind::Constant => 12,
            DefinitionKind::Static => 13,
            DefinitionKind::Constructor => 14,
            DefinitionKind::AssociatedFunction => 15,
            DefinitionKind::AssociatedConstant => 16,
            DefinitionKind::Macro => 17,
            DefinitionKind::ExternCrate => 18,
            DefinitionKind::Import => 19,
            DefinitionKind::ForeignModule => 20,
            DefinitionKind::OpaqueType => 21,
            DefinitionKind::Field => 22,
            DefinitionKind::Implementation => 23,
        }
    }

    fn declared_at(self) -> (place: u8)
        ensures
            place == self.place(),
    {
        match self {
            DefinitionKind::Crate => 0,
            DefinitionKind::Module => 1,
            DefinitionKind::Struct => 2,
            DefinitionKind::Union => 3,
            DefinitionKind::Enum => 4,
            DefinitionKind::Variant => 5,
            DefinitionKind::Trait => 6,
            DefinitionKind::TypeAlias => 7,
            DefinitionKind::ForeignType => 8,
            DefinitionKind::TraitAlias => 9,
            DefinitionKind::AssociatedType => 10,
            DefinitionKind::Function => 11,
            DefinitionKind::Constant => 12,
            DefinitionKind::Static => 13,
            DefinitionKind::Constructor => 14,
            DefinitionKind::AssociatedFunction => 15,
            DefinitionKind::AssociatedConstant => 16,
            DefinitionKind::Macro => 17,
            DefinitionKind::ExternCrate => 18,
            DefinitionKind::Import => 19,
            DefinitionKind::ForeignModule => 20,
            DefinitionKind::OpaqueType => 21,
            DefinitionKind::Field => 22,
            DefinitionKind::Implementation => 23,
        }
    }
}

/// Ordered as declared.
impl Ordered for DefinitionKind {
    open spec fn precedes(a: DefinitionKind, b: DefinitionKind) -> bool {
        a.place() < b.place()
    }

    proof fn irreflexive(a: DefinitionKind) {
    }

    proof fn transitive(a: DefinitionKind, b: DefinitionKind, c: DefinitionKind) {
    }

    proof fn total(a: DefinitionKind, b: DefinitionKind) {
    }

    fn rank(&self, other: &Self) -> (rank: Rank) {
        let left: u8 = self.declared_at();
        let right: u8 = other.declared_at();
        if left < right {
            Rank::Less
        } else if left == right {
            Rank::Equal
        } else {
            Rank::Greater
        }
    }
}

/// The visibility that a definition is declared with.
#[derive(Clone, Copy, Debug, PartialEq, Eq, Structural)]
pub enum NominalVisibility {
    Public,
    Restricted(CompilerDefId),
}

impl DeepView for NominalVisibility {
    type V = NominalVisibility;

    open spec fn deep_view(&self) -> NominalVisibility {
        *self
    }
}

/// Where the text of a definition comes from.
#[derive(Clone, Copy, Debug, PartialEq, Eq, Structural)]
pub enum ExpansionOrigin {
    Authored,
    BuiltinDesugaring,
    LocalMacro,
    ExternalMacro,
}

impl DeepView for ExpansionOrigin {
    type V = ExpansionOrigin;

    open spec fn deep_view(&self) -> ExpansionOrigin {
        *self
    }
}

impl ExpansionOrigin {
    /// The place of the variant in the declaration.
    pub open spec fn place(self) -> u8 {
        match self {
            ExpansionOrigin::Authored => 0,
            ExpansionOrigin::BuiltinDesugaring => 1,
            ExpansionOrigin::LocalMacro => 2,
            ExpansionOrigin::ExternalMacro => 3,
        }
    }

    fn declared_at(self) -> (place: u8)
        ensures
            place == self.place(),
    {
        match self {
            ExpansionOrigin::Authored => 0,
            ExpansionOrigin::BuiltinDesugaring => 1,
            ExpansionOrigin::LocalMacro => 2,
            ExpansionOrigin::ExternalMacro => 3,
        }
    }
}

/// Ordered as declared.
impl Ordered for ExpansionOrigin {
    open spec fn precedes(a: ExpansionOrigin, b: ExpansionOrigin) -> bool {
        a.place() < b.place()
    }

    proof fn irreflexive(a: ExpansionOrigin) {
    }

    proof fn transitive(a: ExpansionOrigin, b: ExpansionOrigin, c: ExpansionOrigin) {
    }

    proof fn total(a: ExpansionOrigin, b: ExpansionOrigin) {
    }

    fn rank(&self, other: &Self) -> (rank: Rank) {
        let left: u8 = self.declared_at();
        let right: u8 = other.declared_at();
        if left < right {
            Rank::Less
        } else if left == right {
            Rank::Equal
        } else {
            Rank::Greater
        }
    }
}

/// A definition of the compiled crate.
#[derive(Debug, PartialEq, Eq)]
pub struct Definition {
    pub id: FactId,
    pub compiler_id: CompilerDefId,
    pub parent: Option<CompilerDefId>,
    pub name: Option<String>,
    pub definition_path: String,
    pub kind: DefinitionKind,
    pub visibility_editable: bool,
    pub nominal_visibility: NominalVisibility,
    pub externally_reachable: bool,
    pub span: Option<SourceSpan>,
    pub attribution_callsite: Option<SourceSpan>,
    pub expansion_origin: ExpansionOrigin,
}

/// The model of [`Definition`].
#[verifier::ext_equal]
pub struct DefinitionView {
    pub id: Seq<char>,
    pub compiler_id: CompilerDefId,
    pub parent: Option<CompilerDefId>,
    pub name: Option<Seq<char>>,
    pub definition_path: Seq<char>,
    pub kind: DefinitionKind,
    pub visibility_editable: bool,
    pub nominal_visibility: NominalVisibility,
    pub externally_reachable: bool,
    pub span: Option<SourceSpanView>,
    pub attribution_callsite: Option<SourceSpanView>,
    pub expansion_origin: ExpansionOrigin,
}

impl DeepView for Definition {
    type V = DefinitionView;

    open spec fn deep_view(&self) -> DefinitionView {
        DefinitionView {
            id: self.id.deep_view(),
            compiler_id: self.compiler_id,
            parent: self.parent,
            name: self.name.deep_view(),
            definition_path: self.definition_path.deep_view(),
            kind: self.kind,
            visibility_editable: self.visibility_editable,
            nominal_visibility: self.nominal_visibility,
            externally_reachable: self.externally_reachable,
            span: self.span.deep_view(),
            attribution_callsite: self.attribution_callsite.deep_view(),
            expansion_origin: self.expansion_origin,
        }
    }
}

impl Clone for Definition {
    fn clone(&self) -> (copy: Self)
        ensures
            copy.deep_view() == self.deep_view(),
    {
        let copy = Definition {
            id: self.id.clone(),
            compiler_id: self.compiler_id,
            parent: self.parent,
            name: self.name.clone(),
            definition_path: self.definition_path.clone(),
            kind: self.kind,
            visibility_editable: self.visibility_editable,
            nominal_visibility: self.nominal_visibility,
            externally_reachable: self.externally_reachable,
            span: self.span.clone(),
            attribution_callsite: self.attribution_callsite.clone(),
            expansion_origin: self.expansion_origin,
        };
        proof {
            assert(copy.id.deep_view() =~= self.id.deep_view());
            assert(copy.name.deep_view() =~= self.name.deep_view());
            assert(copy.span.deep_view() =~= self.span.deep_view());
            assert(copy.attribution_callsite.deep_view() =~= self.attribution_callsite.deep_view());
        }
        copy
    }
}

/// The namespace of a name.
#[derive(Clone, Copy, Debug, PartialEq, Eq, Structural)]
pub enum Namespace {
    Type,
    Value,
    Macro,
}

impl DeepView for Namespace {
    type V = Namespace;

    open spec fn deep_view(&self) -> Namespace {
        *self
    }
}

impl Namespace {
    /// The place of the variant in the declaration.
    pub open spec fn place(self) -> u8 {
        match self {
            Namespace::Type => 0,
            Namespace::Value => 1,
            Namespace::Macro => 2,
        }
    }

    fn declared_at(self) -> (place: u8)
        ensures
            place == self.place(),
    {
        match self {
            Namespace::Type => 0,
            Namespace::Value => 1,
            Namespace::Macro => 2,
        }
    }
}

/// Ordered as declared.
impl Ordered for Namespace {
    open spec fn precedes(a: Namespace, b: Namespace) -> bool {
        a.place() < b.place()
    }

    proof fn irreflexive(a: Namespace) {
    }

    proof fn transitive(a: Namespace, b: Namespace, c: Namespace) {
    }

    proof fn total(a: Namespace, b: Namespace) {
    }

    fn rank(&self, other: &Self) -> (rank: Rank) {
        let left: u8 = self.declared_at();
        let right: u8 = other.declared_at();
        if left < right {
            Rank::Less
        } else if left == right {
            Rank::Equal
        } else {
            Rank::Greater
        }
    }
}

/// How a name became public.
#[derive(Clone, Copy, Debug, PartialEq, Eq, Structural)]
pub enum Exposure {
    Direct,
    SingleReexport,
    GlobReexport,
    ExternCrate,
    MacroUse,
    MacroExport,
}

impl DeepView for Exposure {
    type V = Exposure;

    open spec fn deep_view(&self) -> Exposure {
        *self
    }
}

impl Exposure {
    /// The place of the variant in the declaration.
    pub open spec fn place(self) -> u8 {
        match self {
            Exposure::Direct => 0,
            Exposure::SingleReexport => 1,
            Exposure::GlobReexport => 2,
            Exposure::ExternCrate => 3,
            Exposure::MacroUse => 4,
            Exposure::MacroExport => 5,
        }
    }

    fn declared_at(self) -> (place: u8)
        ensures
            place == self.place(),
    {
        match self {
            Exposure::Direct => 0,
            Exposure::SingleReexport => 1,
            Exposure::GlobReexport => 2,
            Exposure::ExternCrate => 3,
            Exposure::MacroUse => 4,
            Exposure::MacroExport => 5,
        }
    }
}

/// Ordered as declared.
impl Ordered for Exposure {
    open spec fn precedes(a: Exposure, b: Exposure) -> bool {
        a.place() < b.place()
    }

    proof fn irreflexive(a: Exposure) {
    }

    proof fn transitive(a: Exposure, b: Exposure, c: Exposure) {
    }

    proof fn total(a: Exposure, b: Exposure) {
    }

    fn rank(&self, other: &Self) -> (rank: Rank) {
        let left: u8 = self.declared_at();
        let right: u8 = other.declared_at();
        if left < right {
            Rank::Less
        } else if left == right {
            Rank::Equal
        } else {
            Rank::Greater
        }
    }
}

/// A public name of a module and what it stands for.
#[derive(Debug, PartialEq, Eq)]
pub struct PublicBinding {
    pub id: FactId,
    pub parent: CompilerDefId,
    pub target: CompilerDefId,
    pub name: String,
    pub namespace: Namespace,
    pub exposure: Exposure,
    pub exposing_import: Option<CompilerDefId>,
    pub span: Option<SourceSpan>,
    pub resolved_target_path: String,
}

/// The model of [`PublicBinding`].
#[verifier::ext_equal]
pub struct PublicBindingView {
    pub id: Seq<char>,
    pub parent: CompilerDefId,
    pub target: CompilerDefId,
    pub name: Seq<char>,
    pub namespace: Namespace,
    pub exposure: Exposure,
    pub exposing_import: Option<CompilerDefId>,
    pub span: Option<SourceSpanView>,
    pub resolved_target_path: Seq<char>,
}

impl DeepView for PublicBinding {
    type V = PublicBindingView;

    open spec fn deep_view(&self) -> PublicBindingView {
        PublicBindingView {
            id: self.id.deep_view(),
            parent: self.parent,
            target: self.target,
            name: self.name.deep_view(),
            namespace: self.namespace,
            exposure: self.exposure,
            exposing_import: self.exposing_import,
            span: self.span.deep_view(),
            resolved_target_path: self.resolved_target_path.deep_view(),
        }
    }
}

impl Clone for PublicBinding {
    fn clone(&self) -> (copy: Self)
        ensures
            copy.deep_view() == self.deep_view(),
    {
        let copy = PublicBinding {
            id: self.id.clone(),
            parent: self.parent,
            target: self.target,
            name: self.name.clone(),
            namespace: self.namespace,
            exposure: self.exposure,
            exposing_import: self.exposing_import,
            span: self.span.clone(),
            resolved_target_path: self.resolved_target_path.clone(),
        };
        proof {
            assert(copy.id.deep_view() =~= self.id.deep_view());
            assert(copy.span.deep_view() =~= self.span.deep_view());
        }
        copy
    }
}

/// Why a definition is a root of the reference graph.
#[derive(Clone, Copy, Debug, PartialEq, Eq, Structural)]
pub enum RootKind {
    EntryPoint,
    Conservative,
    RequiredPublic,
}

impl DeepView for RootKind {
    type V = RootKind;

    open spec fn deep_view(&self) -> RootKind {
        *self
    }
}

impl RootKind {
    /// The place of the variant in the declaration.
    pub open spec fn place(self) -> u8 {
        match self {
            RootKind::EntryPoint => 0,
            RootKind::Conservative => 1,
            RootKind::RequiredPublic => 2,
        }
    }

    fn declared_at(self) -> (place: u8)
        ensures
            place == self.place(),
    {
        match self {
            RootKind::EntryPoint => 0,
            RootKind::Conservative => 1,
            RootKind::RequiredPublic => 2,
        }
    }
}

/// Ordered as declared.
impl Ordered for RootKind {
    open spec fn precedes(a: RootKind, b: RootKind) -> bool {
        a.place() < b.place()
    }

    proof fn irreflexive(a: RootKind) {
    }

    proof fn transitive(a: RootKind, b: RootKind, c: RootKind) {
    }

    proof fn total(a: RootKind, b: RootKind) {
    }

    fn rank(&self, other: &Self) -> (rank: Rank) {
        let left: u8 = self.declared_at();
        let right: u8 = other.declared_at();
        if left < right {
            Rank::Less
        } else if left == right {
            Rank::Equal
        } else {
            Rank::Greater
        }
    }
}

/// A definition that is used without being referenced.
#[derive(Debug, PartialEq, Eq)]
pub struct Root {
    pub id: FactId,
    pub definition: CompilerDefId,
    pub kind: RootKind,
    pub reason: String,
}

/// The model of [`Root`].
#[verifier::ext_equal]
pub struct RootView {
    pub id: Seq<char>,
    pub definition: CompilerDefId,
    pub kind: RootKind,
    pub reason: Seq<char>,
}

impl DeepView for Root {
    type V = RootView;

    open spec fn deep_view(&self) -> RootView {
        RootView {
            id: self.id.deep_view(),
            definition: self.definition,
            kind: self.kind,
            reason: self.reason.deep_view(),
        }
    }
}

impl Clone for Root {
    fn clone(&self) -> (copy: Self)
        ensures
            copy.deep_view() == self.deep_view(),
    {
        let copy = Root {
            id: self.id.clone(),
            definition: self.definition,
            kind: self.kind,
            reason: self.reason.clone(),
        };
        proof {
            assert(copy.id.deep_view() =~= self.id.deep_view());
        }
        copy
    }
}

/// How one definition refers to another.
#[derive(Clone, Copy, Debug, PartialEq, Eq, Structural)]
pub enum ReferenceKind {
    Body,
    Interface,
    Reexport,
    VisibilityParent,
    VisibilityRequirement,
}

impl DeepView for ReferenceKind {
    type V = ReferenceKind;

    open spec fn deep_view(&self) -> ReferenceKind {
        *self
    }
}

impl ReferenceKind {
    /// The place of the variant in the declaration.
    pub open spec fn place(self) -> u8 {
        match self {
            ReferenceKind::Body => 0,
            ReferenceKind::Interface => 1,
            ReferenceKind::Reexport => 2,
            ReferenceKind::VisibilityParent => 3,
            ReferenceKind::VisibilityRequirement => 4,
        }
    }

    fn declared_at(self) -> (place: u8)
        ensures
            place == self.place(),
    {
        match self {
            ReferenceKind::Body => 0,
            ReferenceKind::Interface => 1,
            ReferenceKind::Reexport => 2,
            ReferenceKind::VisibilityParent => 3,
            ReferenceKind::VisibilityRequirement => 4,
        }
    }
}

/// Ordered as declared.
impl Ordered for ReferenceKind {
    open spec fn precedes(a: ReferenceKind, b: ReferenceKind) -> bool {
        a.place() < b.place()
    }

    proof fn irreflexive(a: ReferenceKind) {
    }

    proof fn transitive(a: ReferenceKind, b: ReferenceKind, c: ReferenceKind) {
    }

    proof fn total(a: ReferenceKind, b: ReferenceKind) {
    }

    fn rank(&self, other: &Self) -> (rank: Rank) {
        let left: u8 = self.declared_at();
        let right: u8 = other.declared_at();
        if left < right {
            Rank::Less
        } else if left == right {
            Rank::Equal
        } else {
            Rank::Greater
        }
    }
}

/// A reference of one definition to another.
#[derive(Debug, PartialEq, Eq)]
pub struct Reference {
    pub id: FactId,
    pub from: CompilerDefId,
    pub to: CompilerDefId,
    pub kind: ReferenceKind,
    pub span: Option<SourceSpan>,
}

/// The model of [`Reference`].
#[verifier::ext_equal]
pub struct ReferenceView {
    pub id: Seq<char>,
    pub from: CompilerDefId,
    pub to: CompilerDefId,
    pub kind: ReferenceKind,
    pub span: Option<SourceSpanView>,
}

impl DeepView for Reference {
    type V = ReferenceView;

    open spec fn deep_view(&self) -> ReferenceView {
        ReferenceView {
            id: self.id.deep_view(),
            from: self.from,
            to: self.to,
            kind: self.kind,
            span: self.span.deep_view(),
        }
    }
}

impl Clone for Reference {
    fn clone(&self) -> (copy: Self)
        ensures
            copy.deep_view() == self.deep_view(),
    {
        let copy = Reference {
            id: self.id.clone(),
            from: self.from,
            to: self.to,
            kind: self.kind,
            span: self.span.clone(),
        };
        proof {
            assert(copy.id.deep_view() =~= self.id.deep_view());
            assert(copy.span.deep_view() =~= self.span.deep_view());
        }
        copy
    }
}

/// A body of facts that a sidecar reports on.
#[derive(Clone, Copy, Debug, PartialEq, Eq, Structural)]
pub enum Product {
    SemanticGraph,
}

impl DeepView for Product {
    type V = Product;

    open spec fn deep_view(&self) -> Product {
        *self
    }
}

impl Product {
    /// The place of the variant in the declaration.
    pub open spec fn place(self) -> u8 {
        match self {
            Product::SemanticGraph => 0,
        }
    }

    fn declared_at(self) -> (place: u8)
        ensures
            place == self.place(),
    {
        match self {
            Product::SemanticGraph => 0,
        }
    }
}

/// Ordered as declared.
impl Ordered for Product {
    open spec fn precedes(a: Product, b: Product) -> bool {
        a.place() < b.place()
    }

    proof fn irreflexive(a: Product) {
    }

    proof fn transitive(a: Product, b: Product, c: Product) {
    }

    proof fn total(a: Product, b: Product) {
    }

    fn rank(&self, other: &Self) -> (rank: Rank) {
        let left: u8 = self.declared_at();
        let right: u8 = other.declared_at();
        if left < right {
            Rank::Less
        } else if left == right {
            Rank::Equal
        } else {
            Rank::Greater
        }
    }
}

/// How complete a product is.
#[derive(Clone, Copy, Debug, PartialEq, Eq, Structural)]
pub enum Availability {
    Complete,
    Partial,
    Unavailable,
}

impl DeepView for Availability {
    type V = Availability;

    open spec fn deep_view(&self) -> Availability {
        *self
    }
}

impl Availability {
    /// The place of the variant in the declaration.
    pub open spec fn place(self) -> u8 {
        match self {
            Availability::Complete => 0,
            Availability::Partial => 1,
            Availability::Unavailable => 2,
        }
    }

    fn declared_at(self) -> (place: u8)
        ensures
            place == self.place(),
    {
        match self {
            Availability::Complete => 0,
            Availability::Partial => 1,
            Availability::Unavailable => 2,
        }
    }
}

/// Ordered as declared.
impl Ordered for Availability {
    open spec fn precedes(a: Availability, b: Availability) -> bool {
        a.place() < b.place()
    }

    proof fn irreflexive(a: Availability) {
    }

    proof fn transitive(a: Availability, b: Availability, c: Availability) {
    }

    proof fn total(a: Availability, b: Availability) {
    }

    fn rank(&self, other: &Self) -> (rank: Rank) {
        let left: u8 = self.declared_at();
        let right: u8 = other.declared_at();
        if left < right {
            Rank::Less
        } else if left == right {
            Rank::Equal
        } else {
            Rank::Greater
        }
    }
}

/// How complete a product of this sidecar is.
#[derive(Debug, PartialEq, Eq)]
pub struct ProductStatus {
    pub product: Product,
    pub availability: Availability,
    pub message: Option<String>,
}

/// The model of [`ProductStatus`].
#[verifier::ext_equal]
pub struct ProductStatusView {
    pub product: Product,
    pub availability: Availability,
    pub message: Option<Seq<char>>,
}

impl DeepView for ProductStatus {
    type V = ProductStatusView;

    open spec fn deep_view(&self) -> ProductStatusView {
        ProductStatusView {
            product: self.product,
            availability: self.availability,
            message: self.message.deep_view(),
        }
    }
}

impl Clone for ProductStatus {
    fn clone(&self) -> (copy: Self)
        ensures
            copy.deep_view() == self.deep_view(),
    {
        let copy = ProductStatus {
            product: self.product,
            availability: self.availability,
            message: self.message.clone(),
        };
        proof {
            assert(copy.message.deep_view() =~= self.message.deep_view());
        }
        copy
    }
}

/// When a diagnostic arose.
#[derive(Clone, Copy, Debug, PartialEq, Eq, Structural)]
pub enum DiagnosticPhase {
    Invocation,
    Analysis,
    Sidecar,
}

impl DeepView for DiagnosticPhase {
    type V = DiagnosticPhase;

    open spec fn deep_view(&self) -> DiagnosticPhase {
        *self
    }
}

/// How severe a diagnostic is.
#[derive(Clone, Copy, Debug, PartialEq, Eq, Structural)]
pub enum DiagnosticSeverity {
    Warning,
    Error,
}

impl DeepView for DiagnosticSeverity {
    type V = DiagnosticSeverity;

    open spec fn deep_view(&self) -> DiagnosticSeverity {
        *self
    }
}

/// A message of the collecting driver.
#[derive(Debug, PartialEq, Eq)]
pub struct Diagnostic {
    pub phase: DiagnosticPhase,
    pub severity: DiagnosticSeverity,
    pub message: String,
    pub span: Option<SourceSpan>,
}

/// The model of [`Diagnostic`].
#[verifier::ext_equal]
pub struct DiagnosticView {
    pub phase: DiagnosticPhase,
    pub severity: DiagnosticSeverity,
    pub message: Seq<char>,
    pub span: Option<SourceSpanView>,
}

impl DeepView for Diagnostic {
    type V = DiagnosticView;

    open spec fn deep_view(&self) -> DiagnosticView {
        DiagnosticView {
            phase: self.phase,
            severity: self.severity,
            message: self.message.deep_view(),
            span: self.span.deep_view(),
        }
    }
}

impl Clone for Diagnostic {
    fn clone(&self) -> (copy: Self)
        ensures
            copy.deep_view() == self.deep_view(),
    {
        let copy = Diagnostic {
            phase: self.phase,
            severity: self.severity,
            message: self.message.clone(),
            span: self.span.clone(),
        };
        proof {
            assert(copy.span.deep_view() =~= self.span.deep_view());
        }
        copy
    }
}

/// The last record of a sidecar.
#[derive(Clone, Copy, Debug, PartialEq, Eq, Structural)]
pub struct InvocationFinished {
    pub rustc_success: bool,
    pub analysis_reached: bool,
}

impl DeepView for InvocationFinished {
    type V = InvocationFinished;

    open spec fn deep_view(&self) -> InvocationFinished {
        *self
    }
}

/// What a record says.
#[derive(Debug, PartialEq, Eq)]
pub enum Event {
    InvocationStarted(InvocationStarted),
    Profile(Profile),
    SourceFile(SourceFile),
    Definition(Definition),
    PublicBinding(PublicBinding),
    Root(Root),
    Reference(Reference),
    ProductStatus(ProductStatus),
    Diagnostic(Diagnostic),
    InvocationFinished(InvocationFinished),
}

/// The model of [`Event`].
pub enum EventView {
    InvocationStarted(InvocationStartedView),
    Profile(ProfileView),
    SourceFile(SourceFileView),
    Definition(DefinitionView),
    PublicBinding(PublicBindingView),
    Root(RootView),
    Reference(ReferenceView),
    ProductStatus(ProductStatusView),
    Diagnostic(DiagnosticView),
    InvocationFinished(InvocationFinished),
}

impl DeepView for Event {
    type V = EventView;

    open spec fn deep_view(&self) -> EventView {
        match self {
            Event::InvocationStarted(value) => EventView::InvocationStarted(value.deep_view()),
            Event::Profile(value) => EventView::Profile(value.deep_view()),
            Event::SourceFile(value) => EventView::SourceFile(value.deep_view()),
            Event::Definition(value) => EventView::Definition(value.deep_view()),
            Event::PublicBinding(value) => EventView::PublicBinding(value.deep_view()),
            Event::Root(value) => EventView::Root(value.deep_view()),
            Event::Reference(value) => EventView::Reference(value.deep_view()),
            Event::ProductStatus(value) => EventView::ProductStatus(value.deep_view()),
            Event::Diagnostic(value) => EventView::Diagnostic(value.deep_view()),
            Event::InvocationFinished(value) => EventView::InvocationFinished(*value),
        }
    }
}

impl Clone for Event {
    fn clone(&self) -> (copy: Self)
        ensures
            copy.deep_view() == self.deep_view(),
    {
        match self {
            Event::InvocationStarted(value) => Event::InvocationStarted(value.clone()),
            Event::Profile(value) => Event::Profile(value.clone()),
            Event::SourceFile(value) => Event::SourceFile(value.clone()),
            Event::Definition(value) => Event::Definition(value.clone()),
            Event::PublicBinding(value) => Event::PublicBinding(value.clone()),
            Event::Root(value) => Event::Root(value.clone()),
            Event::Reference(value) => Event::Reference(value.clone()),
            Event::ProductStatus(value) => Event::ProductStatus(value.clone()),
            Event::Diagnostic(value) => Event::Diagnostic(value.clone()),
            Event::InvocationFinished(value) => Event::InvocationFinished(*value),
        }
    }
}

/// One line of a sidecar.
#[derive(Debug, PartialEq, Eq)]
pub struct Record {
    pub protocol_version: u32,
    pub run_id: RunId,
    pub invocation_id: InvocationId,
    pub sequence: u64,
    pub event: Event,
}

/// The model of [`Record`].
#[verifier::ext_equal]
pub struct RecordView {
    pub protocol_version: u32,
    pub run_id: Seq<char>,
    pub invocation_id: Seq<char>,
    pub sequence: u64,
    pub event: EventView,
}

impl DeepView for Record {
    type V = RecordView;

    open spec fn deep_view(&self) -> RecordView {
        RecordView {
            protocol_version: self.protocol_version,
            run_id: self.run_id.deep_view(),
            invocation_id: self.invocation_id.deep_view(),
            sequence: self.sequence,
            event: self.event.deep_view(),
        }
    }
}

impl Clone for Record {
    fn clone(&self) -> (copy: Self)
        ensures
            copy.deep_view() == self.deep_view(),
    {
        let copy = Record {
            protocol_version: self.protocol_version,
            run_id: self.run_id.clone(),
            invocation_id: self.invocation_id.clone(),
            sequence: self.sequence,
            event: self.event.clone(),
        };
        proof {
            assert(copy.run_id.deep_view() =~= self.run_id.deep_view());
            assert(copy.invocation_id.deep_view() =~= self.invocation_id.deep_view());
            assert(copy.event.deep_view() =~= self.event.deep_view());
        }
        copy
    }
}

} // verus!
