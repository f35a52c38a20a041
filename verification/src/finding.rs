//! Findings: the unit of output, one thing a developer should verify.
//!
//! A [`Finding`] carries a confidence tier ([`Tier`]), a score, a severity class
//! ([`SeverityClass`]) and a payload that says why it was raised. The score is a
//! number of hundredths between 0 and 100.
use crate::json::{
    distinct_keys, member_views, text_list, JsonView,
    json_count, json_hundredths, json_null, json_object, json_string, json_strings, json_view,
    print_compact,
};
use crate::text::{hex_text, same, texts};
use std::collections::hash_map::DefaultHasher;
use std::hash::Hasher;
use vstd::prelude::*;
use vstd::std_specs::hash::*;
use vstd::string::*;

verus! {

/// Confidence tier.
#[derive(Debug, Clone, Copy, PartialEq, Eq, PartialOrd, Ord, Structural)]
pub enum Tier {
    Proven,
    Likely,
    Possible,
    Unknown,
}

impl Tier {
    /// Rank of a tier: the surer, the higher.
    pub open spec fn rank_spec(self) -> int {
        match self {
            Tier::Proven => 3,
            Tier::Likely => 2,
            Tier::Possible => 1,
            Tier::Unknown => 0,
        }
    }

    /// Rank of a tier, for stable ordering.
    pub fn rank(self) -> (r: u8)
        ensures
            r == self.rank_spec(),
    {
        match self {
            Tier::Proven => 3,
            Tier::Likely => 2,
            Tier::Possible => 1,
            Tier::Unknown => 0,
        }
    }

    /// Lower-case name of a tier.
    pub open spec fn slug_spec(self) -> Seq<char> {
        match self {
            Tier::Proven => "proven"@,
            Tier::Likely => "likely"@,
            Tier::Possible => "possible"@,
            Tier::Unknown => "unknown"@,
        }
    }

    /// Lower-case name of a tier.
    pub fn slug(self) -> (r: &'static str)
        ensures
            r@ == self.slug_spec(),
    {
        match self {
            Tier::Proven => "proven",
            Tier::Likely => "likely",
            Tier::Possible => "possible",
            Tier::Unknown => "unknown",
        }
    }

    /// Capitalised name of a tier.
    pub open spec fn title_spec(self) -> Seq<char> {
        match self {
            Tier::Proven => "Proven"@,
            Tier::Likely => "Likely"@,
            Tier::Possible => "Possible"@,
            Tier::Unknown => "Unknown"@,
        }
    }

    /// Capitalised name of a tier.
    pub fn title(self) -> (r: &'static str)
        ensures
            r@ == self.title_spec(),
    {
        match self {
            Tier::Proven => "Proven",
            Tier::Likely => "Likely",
            Tier::Possible => "Possible",
            Tier::Unknown => "Unknown",
        }
    }
}

/// Severity bucket, the gravest first.
#[derive(Debug, Clone, Copy, PartialEq, Eq, PartialOrd, Ord, Structural)]
pub enum SeverityClass {
    High,
    Medium,
    Low,
    Unknown,
}

impl SeverityClass {
    /// Place of a severity in the order of the variants.
    pub open spec fn place_spec(self) -> int {
        match self {
            SeverityClass::High => 0,
            SeverityClass::Medium => 1,
            SeverityClass::Low => 2,
            SeverityClass::Unknown => 3,
        }
    }

    /// Place of a severity in the order of the variants.
    pub fn place(self) -> (r: u8)
        ensures
            r == self.place_spec(),
    {
        match self {
            SeverityClass::High => 0,
            SeverityClass::Medium => 1,
            SeverityClass::Low => 2,
            SeverityClass::Unknown => 3,
        }
    }

    /// Upper-case label of a severity.
    pub open spec fn label_spec(self) -> Seq<char> {
        match self {
            SeverityClass::High => "HIGH"@,
            SeverityClass::Medium => "MEDIUM"@,
            SeverityClass::Low => "LOW"@,
            SeverityClass::Unknown => "UNKNOWN"@,
        }
    }

    /// Upper-case label of a severity.
    pub fn as_label(self) -> (r: &'static str)
        ensures
            r@ == self.label_spec(),
    {
        match self {
            SeverityClass::High => "HIGH",
            SeverityClass::Medium => "MEDIUM",
            SeverityClass::Low => "LOW",
            SeverityClass::Unknown => "UNKNOWN",
        }
    }

    /// Lower-case name of a severity.
    pub open spec fn slug_spec(self) -> Seq<char> {
        match self {
            SeverityClass::High => "high"@,
            SeverityClass::Medium => "medium"@,
            SeverityClass::Low => "low"@,
            SeverityClass::Unknown => "unknown"@,
        }
    }

    /// Lower-case name of a severity.
    pub fn slug(self) -> (r: &'static str)
        ensures
            r@ == self.slug_spec(),
    {
        match self {
            SeverityClass::High => "high",
            SeverityClass::Medium => "medium",
            SeverityClass::Low => "low",
            SeverityClass::Unknown => "unknown",
        }
    }

    /// Emoji of a severity.
    pub open spec fn icon_spec(self) -> Seq<char> {
        match self {
            SeverityClass::High => "🔴"@,
            SeverityClass::Medium => "🟡"@,
            SeverityClass::Low => "🔵"@,
            SeverityClass::Unknown => "⚪"@,
        }
    }

    /// Emoji of a severity, for text and markdown.
    pub fn icon(self) -> (r: &'static str)
        ensures
            r@ == self.icon_spec(),
    {
        match self {
            SeverityClass::High => "🔴",
            SeverityClass::Medium => "🟡",
            SeverityClass::Low => "🔵",
            SeverityClass::Unknown => "⚪",
        }
    }
}

/// A symbol in a file. The path is held as text.
#[derive(Debug, PartialEq, Eq)]
pub struct Location {
    pub file: String,
    pub symbol: String,
}

/// A [`Location`] as plain data.
#[verifier::ext_equal]
pub struct LocationView {
    pub file: Seq<char>,
    pub symbol: Seq<char>,
}

impl View for Location {
    type V = LocationView;

    open spec fn view(&self) -> LocationView {
        LocationView { file: self.file@, symbol: self.symbol@ }
    }
}

impl Clone for Location {
    fn clone(&self) -> (r: Location)
        ensures
            r == *self,
    {
        Location { file: self.file.clone(), symbol: self.symbol.clone() }
    }
}

/// The JSON object of a location.
pub open spec fn location_json(l: LocationView) -> JsonView {
    JsonView::Object(
        seq![("file"@, JsonView::Text(l.file)), ("symbol"@, JsonView::Text(l.symbol))],
    )
}

/// An object member.
pub(crate) fn member(key: &str, value: serde_json::Value) -> (r: (String, serde_json::Value))
    ensures
        r.0@ == key@,
        r.1 == value,
{
    (key.to_owned(), value)
}

impl Location {
    /// The JSON object of the location.
    pub(crate) fn to_json(&self) -> (r: serde_json::Value)
        ensures
            json_view(r) == location_json(self@),
    {
        let mut m: Vec<(String, serde_json::Value)> = Vec::new();
        m.push(member("file", json_string(self.file.as_str())));
        m.push(member("symbol", json_string(self.symbol.as_str())));
        proof {
            reveal_strlit("file");
            reveal_strlit("symbol");
            assert("file"@.len() == 4);
            assert("symbol"@.len() == 6);
            assert(member_views(m@) =~= location_json(self@)->Object_0);
        }
        json_object(m)
    }
}

/// What changed about a trait.
#[derive(Debug, Clone, Copy, PartialEq, Eq, Structural)]
pub enum TraitChange {
    /// A method without a default body was added. Every impl that lacks it
    /// fails to compile.
    RequiredMethodAdded,
    /// A method with a default body was added.
    DefaultMethodAdded,
    /// A method was removed.
    MethodRemoved,
    /// A method signature changed.
    RequiredMethodSignatureChanged,
    /// Only the body of a default method changed.
    DefaultMethodBodyChanged,
    /// The supertraits or generic bounds changed.
    SupertraitOrBoundChanged,
}

impl TraitChange {
    /// Severity of a trait change.
    pub open spec fn severity_spec(self) -> SeverityClass {
        match self {
            TraitChange::RequiredMethodAdded | TraitChange::RequiredMethodSignatureChanged
            | TraitChange::MethodRemoved => SeverityClass::High,
            TraitChange::SupertraitOrBoundChanged => SeverityClass::Medium,
            TraitChange::DefaultMethodAdded
            | TraitChange::DefaultMethodBodyChanged => SeverityClass::Low,
        }
    }

    /// Severity of a trait change: compile breaks are high, bound changes
    /// medium, changes to defaults low.
    pub fn severity(self) -> (r: SeverityClass)
        ensures
            r == self.severity_spec(),
    {
        match self {
            TraitChange::RequiredMethodAdded | TraitChange::RequiredMethodSignatureChanged
            | TraitChange::MethodRemoved => SeverityClass::High,
            TraitChange::SupertraitOrBoundChanged => SeverityClass::Medium,
            TraitChange::DefaultMethodAdded
            | TraitChange::DefaultMethodBodyChanged => SeverityClass::Low,
        }
    }

    /// Tier of a trait change.
    pub open spec fn tier_spec(self) -> Tier {
        match self {
            TraitChange::DefaultMethodAdded | TraitChange::DefaultMethodBodyChanged => Tier::Possible,
            _ => Tier::Likely,
        }
    }

    /// Tier of a trait change: `Likely`, or `Possible` where only a default changed.
    pub fn tier(self) -> (r: Tier)
        ensures
            r == self.tier_spec(),
    {
        match self {
            TraitChange::DefaultMethodAdded | TraitChange::DefaultMethodBodyChanged => Tier::Possible,
            _ => Tier::Likely,
        }
    }

    /// Confidence of a trait change in hundredths.
    pub open spec fn confidence_spec(self) -> int {
        match self {
            TraitChange::RequiredMethodAdded | TraitChange::RequiredMethodSignatureChanged => 95,
            TraitChange::MethodRemoved => 90,
            TraitChange::SupertraitOrBoundChanged => 75,
            TraitChange::DefaultMethodBodyChanged => 55,
            TraitChange::DefaultMethodAdded => 40,
        }
    }

    /// Confidence of a trait change in hundredths.
    pub fn confidence(self) -> (r: i64)
        ensures
            r == self.confidence_spec(),
    {
        match self {
            TraitChange::RequiredMethodAdded | TraitChange::RequiredMethodSignatureChanged => 95,
            TraitChange::MethodRemoved => 90,
            TraitChange::SupertraitOrBoundChanged => 75,
            TraitChange::DefaultMethodBodyChanged => 55,
            TraitChange::DefaultMethodAdded => 40,
        }
    }

    /// Short phrase for a trait change.
    pub open spec fn phrase_spec(self) -> Seq<char> {
        match self {
            TraitChange::RequiredMethodAdded => "required method added"@,
            TraitChange::DefaultMethodAdded => "default method added"@,
            TraitChange::MethodRemoved => "method removed"@,
            TraitChange::RequiredMethodSignatureChanged => "required method signature changed"@,
            TraitChange::DefaultMethodBodyChanged => "default method body changed"@,
            TraitChange::SupertraitOrBoundChanged => "supertraits or generic bounds changed"@,
        }
    }

    /// Short phrase for a trait change.
    pub fn phrase(self) -> (r: &'static str)
        ensures
            r@ == self.phrase_spec(),
    {
        match self {
            TraitChange::RequiredMethodAdded => "required method added",
            TraitChange::DefaultMethodAdded => "default method added",
            TraitChange::MethodRemoved => "method removed",
            TraitChange::RequiredMethodSignatureChanged => "required method signature changed",
            TraitChange::DefaultMethodBodyChanged => "default method body changed",
            TraitChange::SupertraitOrBoundChanged => "supertraits or generic bounds changed",
        }
    }

    /// Machine-readable name of a trait change.
    pub open spec fn slug_spec(self) -> Seq<char> {
        match self {
            TraitChange::RequiredMethodAdded => "required_method_added"@,
            TraitChange::DefaultMethodAdded => "default_method_added"@,
            TraitChange::MethodRemoved => "method_removed"@,
            TraitChange::RequiredMethodSignatureChanged => "required_method_signature_changed"@,
            TraitChange::DefaultMethodBodyChanged => "default_method_body_changed"@,
            TraitChange::SupertraitOrBoundChanged => "supertrait_or_bound_changed"@,
        }
    }

    /// Machine-readable name of a trait change.
    pub fn slug(self) -> (r: &'static str)
        ensures
            r@ == self.slug_spec(),
    {
        match self {
            TraitChange::RequiredMethodAdded => "required_method_added",
            TraitChange::DefaultMethodAdded => "default_method_added",
            TraitChange::MethodRemoved => "method_removed",
            TraitChange::RequiredMethodSignatureChanged => "required_method_signature_changed",
            TraitChange::DefaultMethodBodyChanged => "default_method_body_changed",
            TraitChange::SupertraitOrBoundChanged => "supertrait_or_bound_changed",
        }
    }
}

/// Why a finding was raised.
#[derive(Debug, PartialEq, Eq)]
#[allow(inconsistent_fields)]
pub enum FindingKind {
    /// A test function whose body names a changed symbol.
    TestReference { test: Location, matched_symbols: Vec<String> },
    /// An `impl TraitName for T` block for a trait defined in a changed file.
    TraitImpl { trait_name: String, impl_for: String, impl_site: Location },
    /// A `#[derive(TraitName)]` attribute for a trait defined in a changed file.
    /// The derive expands to an impl at compile time.
    DerivedTraitImpl { trait_name: String, impl_for: String, derive_site: Location },
    /// A `dyn TraitName` type for a trait defined in a changed file.
    DynDispatch { trait_name: String, site: Location },
    /// An intra-doc link to a changed symbol.
    DocDriftLink { symbol: String, doc: Location, line: u32 },
    /// A plain mention of a changed symbol in documentation: a weaker signal
    /// than a link.
    DocDriftKeyword { symbol: String, doc: Location, line: u32 },
    /// A foreign-facing signature was `"added"`, `"removed"` or `"modified"`.
    FfiSignatureChange { symbol: String, file: String, change: &'static str },
    /// A `build.rs` script changed.
    BuildScriptChanged { file: String },
    /// Outcome of a `cargo-semver-checks` run, with the tool's own output.
    SemverCheck { level: String, details: String },
    /// A name-resolved reference to a changed symbol. The only kind that
    /// reaches the `Proven` tier.
    ResolvedReference { source_symbol: String, target: Location },
    /// A runtime surface (HTTP route, CLI command) that a changed symbol reaches.
    RuntimeSurface { framework: String, identifier: String, site: Location },
    /// A specific change inside a trait definition. `method` is `None` for a
    /// change to the trait as a whole.
    TraitDefinitionChange { trait_name: String, file: String, method: Option<String>, change: TraitChange },
}

/// A [`FindingKind`] as plain data.
#[verifier::ext_equal]
#[allow(inconsistent_fields)]
pub enum KindView {
    TestReference { test: LocationView, matched_symbols: Seq<Seq<char>> },
    TraitImpl { trait_name: Seq<char>, impl_for: Seq<char>, impl_site: LocationView },
    DerivedTraitImpl { trait_name: Seq<char>, impl_for: Seq<char>, derive_site: LocationView },
    DynDispatch { trait_name: Seq<char>, site: LocationView },
    DocDriftLink { symbol: Seq<char>, doc: LocationView, line: nat },
    DocDriftKeyword { symbol: Seq<char>, doc: LocationView, line: nat },
    FfiSignatureChange { symbol: Seq<char>, file: Seq<char>, change: Seq<char> },
    BuildScriptChanged { file: Seq<char> },
    SemverCheck { level: Seq<char>, details: Seq<char> },
    ResolvedReference { source_symbol: Seq<char>, target: LocationView },
    RuntimeSurface { framework: Seq<char>, identifier: Seq<char>, site: LocationView },
    TraitDefinitionChange { trait_name: Seq<char>, file: Seq<char>, method: Option<Seq<char>>, change: TraitChange },
}

/// An optional text as plain data.
pub open spec fn opt_text(o: Option<String>) -> Option<Seq<char>> {
    match o {
        Some(s) => Some(s@),
        None => None,
    }
}

impl View for FindingKind {
    type V = KindView;

    open spec fn view(&self) -> KindView {
        match self {
            FindingKind::TestReference { test, matched_symbols } => KindView::TestReference {
                test: test@,
                matched_symbols: texts(matched_symbols@),
            },
            FindingKind::TraitImpl { trait_name, impl_for, impl_site } => KindView::TraitImpl {
                trait_name: trait_name@,
                impl_for: impl_for@,
                impl_site: impl_site@,
            },
            FindingKind::DerivedTraitImpl { trait_name, impl_for, derive_site } => KindView::DerivedTraitImpl {
                trait_name: trait_name@,
                impl_for: impl_for@,
                derive_site: derive_site@,
            },
            FindingKind::DynDispatch { trait_name, site } => KindView::DynDispatch {
                trait_name: trait_name@,
                site: site@,
            },
            FindingKind::DocDriftLink { symbol, doc, line } => KindView::DocDriftLink {
                symbol: symbol@,
                doc: doc@,
                line: (*line) as nat,
            },
            FindingKind::DocDriftKeyword { symbol, doc, line } => KindView::DocDriftKeyword {
                symbol: symbol@,
                doc: doc@,
                line: (*line) as nat,
            },
            FindingKind::FfiSignatureChange { symbol, file, change } => KindView::FfiSignatureChange {
                symbol: symbol@,
                file: file@,
                change: change@,
            },
            FindingKind::BuildScriptChanged { file } => KindView::BuildScriptChanged {
                file: file@,
            },
            FindingKind::SemverCheck { level, details } => KindView::SemverCheck {
                level: level@,
                details: details@,
            },
            FindingKind::ResolvedReference { source_symbol, target } => KindView::ResolvedReference {
                source_symbol: source_symbol@,
                target: target@,
            },
            FindingKind::RuntimeSurface { framework, identifier, site } => KindView::RuntimeSurface {
                framework: framework@,
                identifier: identifier@,
                site: site@,
            },
            FindingKind::TraitDefinitionChange { trait_name, file, method, change } => KindView::TraitDefinitionChange {
                trait_name: trait_name@,
                file: file@,
                method: opt_text((*method)),
                change: (*change),
            },
        }
    }
}

/// Copies an optional text.
pub(crate) fn clone_option(o: &Option<String>) -> (r: Option<String>)
    ensures
        r == *o,
{
    match o {
        Some(s) => Some(s.clone()),
        None => None,
    }
}

/// Copies a list of texts.
pub(crate) fn clone_texts(v: &Vec<String>) -> (r: Vec<String>)
    ensures
        r@ == v@,
{
    let mut out: Vec<String> = Vec::new();
    let mut i: usize = 0;
    while i < v.len()
        invariant
            i <= v@.len(),
            out@ == v@.take(i as int),
        decreases v@.len() - i,
    {
        proof {
            assert(v@.take(i + 1) =~= v@.take(i as int).push(v@[i as int]));
        }
        out.push(v[i].clone());
        i = i + 1;
    }
    proof {
        assert(v@.take(v@.len() as int) =~= v@);
    }
    out
}

impl Clone for FindingKind {
    fn clone(&self) -> (r: FindingKind)
        ensures
            r@ == self@,
    {
        match self {
            FindingKind::TestReference { test, matched_symbols } => FindingKind::TestReference {
                test: test.clone(),
                matched_symbols: clone_texts(matched_symbols),
            },
            FindingKind::TraitImpl { trait_name, impl_for, impl_site } => FindingKind::TraitImpl {
                trait_name: trait_name.clone(),
                impl_for: impl_for.clone(),
                impl_site: impl_site.clone(),
            },
            FindingKind::DerivedTraitImpl { trait_name, impl_for, derive_site } => FindingKind::DerivedTraitImpl {
                trait_name: trait_name.clone(),
                impl_for: impl_for.clone(),
                derive_site: derive_site.clone(),
            },
            FindingKind::DynDispatch { trait_name, site } => FindingKind::DynDispatch {
                trait_name: trait_name.clone(),
                site: site.clone(),
            },
            FindingKind::DocDriftLink { symbol, doc, line } => FindingKind::DocDriftLink {
                symbol: symbol.clone(),
                doc: doc.clone(),
                line: *line,
            },
            FindingKind::DocDriftKeyword { symbol, doc, line } => FindingKind::DocDriftKeyword {
                symbol: symbol.clone(),
                doc: doc.clone(),
                line: *line,
            },
            FindingKind::FfiSignatureChange { symbol, file, change } => FindingKind::FfiSignatureChange {
                symbol: symbol.clone(),
                file: file.clone(),
                change: change,
            },
            FindingKind::BuildScriptChanged { file } => FindingKind::BuildScriptChanged {
                file: file.clone(),
            },
            FindingKind::SemverCheck { level, details } => FindingKind::SemverCheck {
                level: level.clone(),
                details: details.clone(),
            },
            FindingKind::ResolvedReference { source_symbol, target } => FindingKind::ResolvedReference {
                source_symbol: source_symbol.clone(),
                target: target.clone(),
            },
            FindingKind::RuntimeSurface { framework, identifier, site } => FindingKind::RuntimeSurface {
                framework: framework.clone(),
                identifier: identifier.clone(),
                site: site.clone(),
            },
            FindingKind::TraitDefinitionChange { trait_name, file, method, change } => FindingKind::TraitDefinitionChange {
                trait_name: trait_name.clone(),
                file: file.clone(),
                method: clone_option(method),
                change: *change,
            },
        }
    }
}

/// Tag of a kind: the value of the JSON `kind` member.
pub open spec fn kind_tag(k: KindView) -> Seq<char> {
    match k {
        KindView::TestReference { .. } => "test_reference"@,
        KindView::TraitImpl { .. } => "trait_impl"@,
        KindView::DerivedTraitImpl { .. } => "derived_trait_impl"@,
        KindView::DynDispatch { .. } => "dyn_dispatch"@,
        KindView::DocDriftLink { .. } => "doc_drift_link"@,
        KindView::DocDriftKeyword { .. } => "doc_drift_keyword"@,
        KindView::FfiSignatureChange { .. } => "ffi_signature_change"@,
        KindView::BuildScriptChanged { .. } => "build_script_changed"@,
        KindView::SemverCheck { .. } => "semver_check"@,
        KindView::ResolvedReference { .. } => "resolved_reference"@,
        KindView::RuntimeSurface { .. } => "runtime_surface"@,
        KindView::TraitDefinitionChange { .. } => "trait_definition_change"@,
    }
}

/// Every tag, in the order in which schemas list them.
pub open spec fn tag_list() -> Seq<Seq<char>> {
    seq![
        "test_reference"@,
        "trait_impl"@,
        "derived_trait_impl"@,
        "dyn_dispatch"@,
        "doc_drift_link"@,
        "doc_drift_keyword"@,
        "ffi_signature_change"@,
        "build_script_changed"@,
        "semver_check"@,
        "trait_definition_change"@,
        "resolved_reference"@,
        "runtime_surface"@,
    ]
}

/// Severity of a semver outcome by its level.
pub open spec fn semver_severity(level: Seq<char>) -> SeverityClass {
    if level == "breaking"@ {
        SeverityClass::High
    } else if level == "minor"@ || level == "patch"@ {
        SeverityClass::Medium
    } else {
        SeverityClass::Unknown
    }
}

/// Severity that a kind has unless it is overridden.
pub open spec fn kind_severity(k: KindView) -> SeverityClass {
    match k {
        KindView::TraitImpl { .. }
        | KindView::DerivedTraitImpl { .. }
        | KindView::FfiSignatureChange { .. }
        | KindView::BuildScriptChanged { .. }
        | KindView::RuntimeSurface { .. } => SeverityClass::High,
        KindView::TestReference { .. }
        | KindView::DynDispatch { .. }
        | KindView::ResolvedReference { .. } => SeverityClass::Medium,
        KindView::DocDriftLink { .. } | KindView::DocDriftKeyword { .. } => SeverityClass::Low,
        KindView::SemverCheck { level, .. } => semver_severity(level),
        KindView::TraitDefinitionChange { change, .. } => change.severity_spec(),
    }
}

/// The file that a kind is about, where it names one.
pub open spec fn kind_path(k: KindView) -> Option<Seq<char>> {
    match k {
        KindView::TestReference { test, .. } => Some(test.file),
        KindView::TraitImpl { impl_site, .. } => Some(impl_site.file),
        KindView::DerivedTraitImpl { derive_site, .. } => Some(derive_site.file),
        KindView::DynDispatch { site, .. } => Some(site.file),
        KindView::DocDriftLink { doc, .. } => Some(doc.file),
        KindView::DocDriftKeyword { doc, .. } => Some(doc.file),
        KindView::FfiSignatureChange { file, .. } => Some(file),
        KindView::BuildScriptChanged { file } => Some(file),
        KindView::ResolvedReference { target, .. } => Some(target.file),
        KindView::TraitDefinitionChange { file, .. } => Some(file),
        KindView::RuntimeSurface { site, .. } => Some(site.file),
        KindView::SemverCheck { .. } => None,
    }
}

/// The JSON members of a kind: its tag, then its payload.
pub open spec fn kind_members(k: KindView) -> Seq<(Seq<char>, JsonView)> {
    match k {
        KindView::TestReference { test, matched_symbols } => seq![
            ("kind"@, JsonView::Text("test_reference"@)),
            ("test"@, location_json(test)),
            ("matched_symbols"@, text_list(matched_symbols)),
        ],
        KindView::TraitImpl { trait_name, impl_for, impl_site } => seq![
            ("kind"@, JsonView::Text("trait_impl"@)),
            ("trait_name"@, JsonView::Text(trait_name)),
            ("impl_for"@, JsonView::Text(impl_for)),
            ("impl_site"@, location_json(impl_site)),
        ],
        KindView::DerivedTraitImpl { trait_name, impl_for, derive_site } => seq![
            ("kind"@, JsonView::Text("derived_trait_impl"@)),
            ("trait_name"@, JsonView::Text(trait_name)),
            ("impl_for"@, JsonView::Text(impl_for)),
            ("derive_site"@, location_json(derive_site)),
        ],
        KindView::DynDispatch { trait_name, site } => seq![
            ("kind"@, JsonView::Text("dyn_dispatch"@)),
            ("trait_name"@, JsonView::Text(trait_name)),
            ("site"@, location_json(site)),
        ],
        KindView::DocDriftLink { symbol, doc, line } => seq![
            ("kind"@, JsonView::Text("doc_drift_link"@)),
            ("symbol"@, JsonView::Text(symbol)),
            ("doc"@, location_json(doc)),
            ("line"@, JsonView::Count(line)),
        ],
        KindView::DocDriftKeyword { symbol, doc, line } => seq![
            ("kind"@, JsonView::Text("doc_drift_keyword"@)),
            ("symbol"@, JsonView::Text(symbol)),
            ("doc"@, location_json(doc)),
            ("line"@, JsonView::Count(line)),
        ],
        KindView::FfiSignatureChange { symbol, file, change } => seq![
            ("kind"@, JsonView::Text("ffi_signature_change"@)),
            ("symbol"@, JsonView::Text(symbol)),
            ("file"@, JsonView::Text(file)),
            ("change"@, JsonView::Text(change)),
        ],
        KindView::BuildScriptChanged { file } => seq![
            ("kind"@, JsonView::Text("build_script_changed"@)),
            ("file"@, JsonView::Text(file)),
        ],
        KindView::SemverCheck { level, details } => seq![
            ("kind"@, JsonView::Text("semver_check"@)),
            ("level"@, JsonView::Text(level)),
            ("details"@, JsonView::Text(details)),
        ],
        KindView::ResolvedReference { source_symbol, target } => seq![
            ("kind"@, JsonView::Text("resolved_reference"@)),
            ("source_symbol"@, JsonView::Text(source_symbol)),
            ("target"@, location_json(target)),
        ],
        KindView::RuntimeSurface { framework, identifier, site } => seq![
            ("kind"@, JsonView::Text("runtime_surface"@)),
            ("framework"@, JsonView::Text(framework)),
            ("identifier"@, JsonView::Text(identifier)),
            ("site"@, location_json(site)),
        ],
        KindView::TraitDefinitionChange { trait_name, file, method, change } => seq![
            ("kind"@, JsonView::Text("trait_definition_change"@)),
            ("trait_name"@, JsonView::Text(trait_name)),
            ("file"@, JsonView::Text(file)),
            ("method"@, match method { Some(t) => JsonView::Text(t), None => JsonView::Null }),
            ("change"@, JsonView::Text(change.slug_spec())),
        ],
    }
}

impl FindingKind {
    /// Severity that this kind has unless it is overridden.
    pub fn default_severity(&self) -> (r: SeverityClass)
        ensures
            r == kind_severity(self@),
    {
        match self {
            FindingKind::TraitImpl { .. }
            | FindingKind::DerivedTraitImpl { .. }
            | FindingKind::FfiSignatureChange { .. }
            | FindingKind::BuildScriptChanged { .. }
            | FindingKind::RuntimeSurface { .. } => SeverityClass::High,
            FindingKind::TestReference { .. }
            | FindingKind::DynDispatch { .. }
            | FindingKind::ResolvedReference { .. } => SeverityClass::Medium,
            FindingKind::DocDriftLink { .. } | FindingKind::DocDriftKeyword { .. } => {
                SeverityClass::Low
            },
            FindingKind::SemverCheck { level, .. } => {
                if same(level.as_str(), "breaking") {
                    SeverityClass::High
                } else if same(level.as_str(), "minor") || same(level.as_str(), "patch") {
                    SeverityClass::Medium
                } else {
                    SeverityClass::Unknown
                }
            },
            FindingKind::TraitDefinitionChange { change, .. } => change.severity(),
        }
    }

    /// The file this finding is about. `None` for a finding that names no
    /// file, such as a semver outcome, which speaks of the whole public API.
    pub fn primary_path(&self) -> (r: Option<&str>)
        ensures
            match r {
                Some(p) => kind_path(self@) == Some(p@),
                None => kind_path(self@) is None,
            },
    {
        match self {
            FindingKind::TestReference { test, .. } => Some(test.file.as_str()),
            FindingKind::TraitImpl { impl_site, .. } => Some(impl_site.file.as_str()),
            FindingKind::DerivedTraitImpl { derive_site, .. } => Some(derive_site.file.as_str()),
            FindingKind::DynDispatch { site, .. } => Some(site.file.as_str()),
            FindingKind::DocDriftLink { doc, .. } => Some(doc.file.as_str()),
            FindingKind::DocDriftKeyword { doc, .. } => Some(doc.file.as_str()),
            FindingKind::FfiSignatureChange { file, .. } => Some(file.as_str()),
            FindingKind::BuildScriptChanged { file } => Some(file.as_str()),
            FindingKind::ResolvedReference { target, .. } => Some(target.file.as_str()),
            FindingKind::TraitDefinitionChange { file, .. } => Some(file.as_str()),
            FindingKind::RuntimeSurface { site, .. } => Some(site.file.as_str()),
            FindingKind::SemverCheck { .. } => None,
        }
    }

    /// Every tag that [`FindingKind::tag`] can return.
    pub fn all_tags() -> (r: Vec<&'static str>)
        ensures
            r@.map_values(|t: &'static str| t@) == tag_list(),
    {
        let mut v: Vec<&'static str> = Vec::new();
        v.push("test_reference");
        v.push("trait_impl");
        v.push("derived_trait_impl");
        v.push("dyn_dispatch");
        v.push("doc_drift_link");
        v.push("doc_drift_keyword");
        v.push("ffi_signature_change");
        v.push("build_script_changed");
        v.push("semver_check");
        v.push("trait_definition_change");
        v.push("resolved_reference");
        v.push("runtime_surface");
        proof {
            assert(v@.map_values(|t: &'static str| t@) =~= tag_list());
        }
        v
    }

    /// Tag of this kind, for grouping and the JSON `kind` member.
    pub fn tag(&self) -> (r: &'static str)
        ensures
            r@ == kind_tag(self@),
    {
        match self {
            FindingKind::TestReference { .. } => "test_reference",
            FindingKind::TraitImpl { .. } => "trait_impl",
            FindingKind::DerivedTraitImpl { .. } => "derived_trait_impl",
            FindingKind::DynDispatch { .. } => "dyn_dispatch",
            FindingKind::DocDriftLink { .. } => "doc_drift_link",
            FindingKind::DocDriftKeyword { .. } => "doc_drift_keyword",
            FindingKind::FfiSignatureChange { .. } => "ffi_signature_change",
            FindingKind::BuildScriptChanged { .. } => "build_script_changed",
            FindingKind::SemverCheck { .. } => "semver_check",
            FindingKind::ResolvedReference { .. } => "resolved_reference",
            FindingKind::RuntimeSurface { .. } => "runtime_surface",
            FindingKind::TraitDefinitionChange { .. } => "trait_definition_change",
        }
    }

    /// The JSON members of this kind: its tag, then its payload.
    pub(crate) fn json_members(&self) -> (r: Vec<(String, serde_json::Value)>)
        ensures
            member_views(r@) == kind_members(self@),
    {
        let mut m: Vec<(String, serde_json::Value)> = Vec::new();
        m.push(member("kind", json_string(self.tag())));
        match self {
            FindingKind::TestReference { test, matched_symbols } => {
                m.push(member("test", test.to_json()));
                m.push(member("matched_symbols", json_strings(matched_symbols)));
            },
            FindingKind::TraitImpl { trait_name, impl_for, impl_site } => {
                m.push(member("trait_name", json_string(trait_name.as_str())));
                m.push(member("impl_for", json_string(impl_for.as_str())));
                m.push(member("impl_site", impl_site.to_json()));
            },
            FindingKind::DerivedTraitImpl { trait_name, impl_for, derive_site } => {
                m.push(member("trait_name", json_string(trait_name.as_str())));
                m.push(member("impl_for", json_string(impl_for.as_str())));
                m.push(member("derive_site", derive_site.to_json()));
            },
            FindingKind::DynDispatch { trait_name, site } => {
                m.push(member("trait_name", json_string(trait_name.as_str())));
                m.push(member("site", site.to_json()));
            },
            FindingKind::DocDriftLink { symbol, doc, line } => {
                m.push(member("symbol", json_string(symbol.as_str())));
                m.push(member("doc", doc.to_json()));
                m.push(member("line", json_count(*line as u64)));
            },
            FindingKind::DocDriftKeyword { symbol, doc, line } => {
                m.push(member("symbol", json_string(symbol.as_str())));
                m.push(member("doc", doc.to_json()));
                m.push(member("line", json_count(*line as u64)));
            },
            FindingKind::FfiSignatureChange { symbol, file, change } => {
                m.push(member("symbol", json_string(symbol.as_str())));
                m.push(member("file", json_string(file.as_str())));
                m.push(member("change", json_string(change)));
            },
            FindingKind::BuildScriptChanged { file } => {
                m.push(member("file", json_string(file.as_str())));
            },
            FindingKind::SemverCheck { level, details } => {
                m.push(member("level", json_string(level.as_str())));
                m.push(member("details", json_string(details.as_str())));
            },
            FindingKind::ResolvedReference { source_symbol, target } => {
                m.push(member("source_symbol", json_string(source_symbol.as_str())));
                m.push(member("target", target.to_json()));
            },
            FindingKind::RuntimeSurface { framework, identifier, site } => {
                m.push(member("framework", json_string(framework.as_str())));
                m.push(member("identifier", json_string(identifier.as_str())));
                m.push(member("site", site.to_json()));
            },
            FindingKind::TraitDefinitionChange { trait_name, file, method, change } => {
                m.push(member("trait_name", json_string(trait_name.as_str())));
                m.push(member("file", json_string(file.as_str())));
                m.push(member("method", match method { Some(t) => json_string(t.as_str()), None => json_null() }));
                m.push(member("change", json_string(change.slug())));
            },
        }
        proof {
            assert(member_views(m@) =~= kind_members(self@));
        }
        m
    }
}

/// No member of a kind's payload repeats a key.
pub(crate) proof fn lemma_kind_keys(k: KindView)
    ensures
        distinct_keys(kind_members(k)),
        forall|i: int|
            0 <= i < kind_members(k).len() ==> {
                let key = (#[trigger] kind_members(k)[i]).0;
                key != "id"@ && key != "severity"@ && key != "tier"@ && key != "confidence"@ && key
                    != "evidence"@ && key != "suggested_action"@
            },
{
    reveal_strlit("change");
    assert("change"@.len() == 6);
    assert("change"@[0] == 'c');
    reveal_strlit("derive_site");
    assert("derive_site"@.len() == 11);
    reveal_strlit("details");
    assert("details"@.len() == 7);
    reveal_strlit("doc");
    assert("doc"@.len() == 3);
    reveal_strlit("file");
    assert("file"@.len() == 4);
    assert("file"@[0] == 'f');
    reveal_strlit("framework");
    assert("framework"@.len() == 9);
    assert("framework"@[0] == 'f');
    reveal_strlit("identifier");
    assert("identifier"@.len() == 10);
    assert("identifier"@[0] == 'i');
    reveal_strlit("impl_for");
    assert("impl_for"@.len() == 8);
    assert("impl_for"@[0] == 'i');
    reveal_strlit("impl_site");
    assert("impl_site"@.len() == 9);
    assert("impl_site"@[0] == 'i');
    reveal_strlit("kind");
    assert("kind"@.len() == 4);
    assert("kind"@[0] == 'k');
    reveal_strlit("level");
    assert("level"@.len() == 5);
    reveal_strlit("line");
    assert("line"@.len() == 4);
    assert("line"@[0] == 'l');
    reveal_strlit("matched_symbols");
    assert("matched_symbols"@.len() == 15);
    reveal_strlit("method");
    assert("method"@.len() == 6);
    assert("method"@[0] == 'm');
    reveal_strlit("site");
    assert("site"@.len() == 4);
    assert("site"@[0] == 's');
    reveal_strlit("source_symbol");
    assert("source_symbol"@.len() == 13);
    reveal_strlit("symbol");
    assert("symbol"@.len() == 6);
    assert("symbol"@[0] == 's');
    reveal_strlit("target");
    assert("target"@.len() == 6);
    assert("target"@[0] == 't');
    reveal_strlit("test");
    assert("test"@.len() == 4);
    assert("test"@[0] == 't');
    assert("test"@[1] == 'e');
    reveal_strlit("trait_name");
    assert("trait_name"@.len() == 10);
    assert("trait_name"@[0] == 't');
    reveal_strlit("id");
    assert("id"@.len() == 2);
    reveal_strlit("severity");
    assert("severity"@.len() == 8);
    assert("severity"@[0] == 's');
    reveal_strlit("tier");
    assert("tier"@.len() == 4);
    assert("tier"@[0] == 't');
    assert("tier"@[1] == 'i');
    reveal_strlit("confidence");
    assert("confidence"@.len() == 10);
    assert("confidence"@[0] == 'c');
    reveal_strlit("evidence");
    assert("evidence"@.len() == 8);
    assert("evidence"@[0] == 'e');
    reveal_strlit("suggested_action");
    assert("suggested_action"@.len() == 16);
}

/// Every kind has a tag from the list.
pub proof fn tag_is_listed(k: KindView)
    ensures
        tag_list().contains(kind_tag(k)),
{
    let l = tag_list();
    assert(l[0] == "test_reference"@);
    assert(l[1] == "trait_impl"@);
    assert(l[2] == "derived_trait_impl"@);
    assert(l[3] == "dyn_dispatch"@);
    assert(l[4] == "doc_drift_link"@);
    assert(l[5] == "doc_drift_keyword"@);
    assert(l[6] == "ffi_signature_change"@);
    assert(l[7] == "build_script_changed"@);
    assert(l[8] == "semver_check"@);
    assert(l[9] == "trait_definition_change"@);
    assert(l[10] == "resolved_reference"@);
    assert(l[11] == "runtime_surface"@);
}

/// No tag is listed twice.
pub proof fn tags_are_distinct()
    ensures
        tag_list().no_duplicates(),
{
    reveal_strlit("test_reference");
    assert("test_reference"@.len() == 14);
    assert("test_reference"@[0] == 't');
    reveal_strlit("trait_impl");
    assert("trait_impl"@.len() == 10);
    reveal_strlit("derived_trait_impl");
    assert("derived_trait_impl"@.len() == 18);
    assert("derived_trait_impl"@[0] == 'd');
    reveal_strlit("dyn_dispatch");
    assert("dyn_dispatch"@.len() == 12);
    assert("dyn_dispatch"@[0] == 'd');
    reveal_strlit("doc_drift_link");
    assert("doc_drift_link"@.len() == 14);
    assert("doc_drift_link"@[0] == 'd');
    reveal_strlit("doc_drift_keyword");
    assert("doc_drift_keyword"@.len() == 17);
    reveal_strlit("ffi_signature_change");
    assert("ffi_signature_change"@.len() == 20);
    assert("ffi_signature_change"@[0] == 'f');
    reveal_strlit("build_script_changed");
    assert("build_script_changed"@.len() == 20);
    assert("build_script_changed"@[0] == 'b');
    reveal_strlit("semver_check");
    assert("semver_check"@.len() == 12);
    assert("semver_check"@[0] == 's');
    reveal_strlit("trait_definition_change");
    assert("trait_definition_change"@.len() == 23);
    reveal_strlit("resolved_reference");
    assert("resolved_reference"@.len() == 18);
    assert("resolved_reference"@[0] == 'r');
    reveal_strlit("runtime_surface");
    assert("runtime_surface"@.len() == 15);
}

/// A kind names no file exactly when it is a semver outcome.
pub proof fn only_semver_has_no_path(k: KindView)
    ensures
        kind_path(k) is None <==> k is SemverCheck,
{
}

/// Single unit of analysis output. Made by [`Finding::new`], which clamps the
/// confidence and takes the severity from the kind.
#[derive(Debug, PartialEq, Eq)]
pub struct Finding {
    pub id: String,
    pub severity: SeverityClass,
    pub tier: Tier,
    /// Confidence in hundredths.
    pub confidence: u32,
    pub kind: FindingKind,
    pub evidence: String,
    pub suggested_action: Option<String>,
}

/// A [`Finding`] as plain data.
#[verifier::ext_equal]
pub struct FindingView {
    pub id: Seq<char>,
    pub severity: SeverityClass,
    pub tier: Tier,
    pub confidence: nat,
    pub kind: KindView,
    pub evidence: Seq<char>,
    pub suggested_action: Option<Seq<char>>,
}

impl View for Finding {
    type V = FindingView;

    open spec fn view(&self) -> FindingView {
        FindingView {
            id: self.id@,
            severity: self.severity,
            tier: self.tier,
            confidence: self.confidence as nat,
            kind: self.kind@,
            evidence: self.evidence@,
            suggested_action: opt_text(self.suggested_action),
        }
    }
}

impl Clone for Finding {
    fn clone(&self) -> (r: Finding)
        ensures
            r@ == self@,
    {
        Finding {
            id: self.id.clone(),
            severity: self.severity,
            tier: self.tier,
            confidence: self.confidence,
            kind: self.kind.clone(),
            evidence: self.evidence.clone(),
            suggested_action: clone_option(&self.suggested_action),
        }
    }
}

/// A sequence of findings as plain data.
pub open spec fn finding_views(s: Seq<Finding>) -> Seq<FindingView> {
    s.map_values(|f: Finding| f@)
}

/// `n` held between 0 and 100.
pub open spec fn clamped(n: int) -> nat {
    if n < 0 {
        0
    } else if n > 100 {
        100
    } else {
        n as nat
    }
}

/// A finding with the severity of its kind and a clamped confidence.
pub open spec fn new_finding(
    id: Seq<char>,
    tier: Tier,
    confidence: int,
    kind: KindView,
    evidence: Seq<char>,
) -> FindingView {
    FindingView {
        id,
        severity: kind_severity(kind),
        tier,
        confidence: clamped(confidence),
        kind,
        evidence,
        suggested_action: None,
    }
}

/// The byte that closes a text in a hash input.
pub open spec fn closing_byte() -> Seq<u8> {
    seq![0xffu8]
}

/// What the id of a finding is computed from: its tag, its evidence and its
/// payload.
pub open spec fn id_input(kind: KindView, evidence: Seq<char>) -> Seq<Seq<u8>> {
    seq![
        vstd::utf8::encode_utf8(kind_tag(kind)),
        closing_byte(),
        vstd::utf8::encode_utf8(evidence),
        closing_byte(),
        vstd::utf8::encode_utf8(crate::json::compact_text(JsonView::Object(kind_members(kind)))),
        closing_byte(),
    ]
}

/// The id that a finding's content determines.
pub open spec fn content_id_of(kind: KindView, evidence: Seq<char>) -> Seq<char> {
    "f-"@ + crate::text::hex(DefaultHasher::spec_finish(id_input(kind, evidence)) as nat, 16)
}

/// Feeds a text and its closing byte into a hasher.
fn hash_text(hasher: &mut DefaultHasher, s: &str)
    ensures
        final(hasher)@ == old(hasher)@.push(vstd::utf8::encode_utf8(s@)).push(closing_byte()),
{
    hasher.write(s.as_bytes());
    let end: [u8; 1] = [0xff];
    hasher.write(&end);
    proof {
        assert(end@ =~= closing_byte());
    }
}

/// The JSON members of a finding.
pub open spec fn finding_members(f: FindingView) -> Seq<(Seq<char>, JsonView)> {
    let base = seq![
        ("id"@, JsonView::Text(f.id)),
        ("severity"@, JsonView::Text(f.severity.slug_spec())),
        ("tier"@, JsonView::Text(f.tier.slug_spec())),
        ("confidence"@, JsonView::Hundredths(f.confidence)),
    ] + kind_members(f.kind) + seq![("evidence"@, JsonView::Text(f.evidence))];
    match f.suggested_action {
        Some(a) => base.push(("suggested_action"@, JsonView::Text(a))),
        None => base,
    }
}

/// The JSON object of a finding.
pub open spec fn finding_json(f: FindingView) -> JsonView {
    JsonView::Object(finding_members(f))
}

/// No member of a finding repeats a key.
proof fn lemma_finding_keys(f: FindingView)
    ensures
        distinct_keys(finding_members(f)),
{
    lemma_kind_keys(f.kind);
    let k = kind_members(f.kind);
    let m = finding_members(f);
    reveal_strlit("id");
    assert("id"@.len() == 2);
    reveal_strlit("severity");
    assert("severity"@.len() == 8);
    assert("severity"@[0] == 's');
    reveal_strlit("tier");
    assert("tier"@.len() == 4);
    reveal_strlit("confidence");
    assert("confidence"@.len() == 10);
    reveal_strlit("evidence");
    assert("evidence"@.len() == 8);
    assert("evidence"@[0] == 'e');
    reveal_strlit("suggested_action");
    assert("suggested_action"@.len() == 16);
    assert forall|i: int, j: int| #![trigger m[i], m[j]] 0 <= i < j < m.len() implies m[i].0 != m[j].0 by {
        if 4 <= i < 4 + k.len() {
            assert(m[i] == k[i - 4]);
        }
        if 4 <= j < 4 + k.len() {
            assert(m[j] == k[j - 4]);
        }
    }
}

impl Finding {
    /// A finding with the severity of its kind. The confidence is given in
    /// hundredths and clamped to 0..=100.
    pub fn new(
        id: &str,
        tier: Tier,
        confidence: i64,
        kind: FindingKind,
        evidence: &str,
    ) -> (r: Finding)
        ensures
            r@ == new_finding(id@, tier, confidence as int, kind@, evidence@),
    {
        let severity = kind.default_severity();
        let clamped: u32 = if confidence < 0 {
            0
        } else if confidence > 100 {
            100
        } else {
            confidence as u32
        };
        Finding {
            id: id.to_owned(),
            severity,
            tier,
            confidence: clamped,
            kind,
            evidence: evidence.to_owned(),
            suggested_action: None,
        }
    }

    /// The id that this finding's content determines: the same kind, payload
    /// and evidence give the same id in every run.
    pub fn content_id(&self) -> (r: String)
        ensures
            r@ == content_id_of(self.kind@, self.evidence@),
    {
        let mut hasher = DefaultHasher::new();
        hash_text(&mut hasher, self.kind.tag());
        hash_text(&mut hasher, self.evidence.as_str());
        proof {
            lemma_kind_keys(self.kind@);
        }
        let payload = print_compact(&json_object(self.kind.json_members()));
        hash_text(&mut hasher, payload.as_str());
        proof {
            assert(hasher@ =~= id_input(self.kind@, self.evidence@));
        }
        let mut id = "f-".to_owned();
        id.append(hex_text(hasher.finish(), 16).as_str());
        id
    }

    /// The finding with another severity.
    pub fn with_severity(self, severity: SeverityClass) -> (r: Finding)
        ensures
            r@ == (FindingView { severity, ..self@ }),
    {
        Finding {
            id: self.id,
            severity,
            tier: self.tier,
            confidence: self.confidence,
            kind: self.kind,
            evidence: self.evidence,
            suggested_action: self.suggested_action,
        }
    }

    /// The finding with a suggested action.
    pub fn with_suggested_action(self, action: &str) -> (r: Finding)
        ensures
            r@ == (FindingView { suggested_action: Some(action@), ..self@ }),
    {
        Finding {
            id: self.id,
            severity: self.severity,
            tier: self.tier,
            confidence: self.confidence,
            kind: self.kind,
            evidence: self.evidence,
            suggested_action: Some(action.to_owned()),
        }
    }

    /// The finding with another id.
    pub fn with_id(self, id: String) -> (r: Finding)
        ensures
            r@ == (FindingView { id: id@, ..self@ }),
    {
        Finding {
            id,
            severity: self.severity,
            tier: self.tier,
            confidence: self.confidence,
            kind: self.kind,
            evidence: self.evidence,
            suggested_action: self.suggested_action,
        }
    }

    /// The file this finding is about.
    pub fn primary_path(&self) -> (r: Option<&str>)
        ensures
            match r {
                Some(p) => kind_path(self@.kind) == Some(p@),
                None => kind_path(self@.kind) is None,
            },
    {
        self.kind.primary_path()
    }

    /// The JSON object of the finding.
    pub(crate) fn to_json(&self) -> (r: serde_json::Value)
        ensures
            json_view(r) == finding_json(self@),
    {
        let mut m: Vec<(String, serde_json::Value)> = Vec::new();
        m.push(member("id", json_string(self.id.as_str())));
        m.push(member("severity", json_string(self.severity.slug())));
        m.push(member("tier", json_string(self.tier.slug())));
        m.push(member("confidence", json_hundredths(self.confidence)));
        let mut payload = self.kind.json_members();
        m.append(&mut payload);
        m.push(member("evidence", json_string(self.evidence.as_str())));
        match &self.suggested_action {
            Some(a) => {
                m.push(member("suggested_action", json_string(a.as_str())));
            },
            None => {},
        }
        proof {
            assert(member_views(m@) =~= finding_members(self@));
            lemma_finding_keys(self@);
        }
        json_object(m)
    }
}

/// The id of a finding does not depend on its id, severity, tier, confidence
/// or suggested action.
pub proof fn content_id_ignores_presentation(f: Finding, g: Finding)
    requires
        f@.kind == g@.kind,
        f@.evidence == g@.evidence,
    ensures
        content_id_of(f@.kind, f@.evidence) == content_id_of(g@.kind, g@.evidence),
{
}

/// Number of findings of a tier.
pub open spec fn tier_count(s: Seq<FindingView>, t: Tier) -> nat {
    s.filter(|f: FindingView| f.tier == t).len()
}

/// Counts by tier.
#[derive(Debug, Clone, Copy, PartialEq, Eq)]
pub struct TierSummary {
    pub proven: u32,
    pub likely: u32,
    pub possible: u32,
    pub unknown: u32,
}

impl Default for TierSummary {
    fn default() -> (r: TierSummary)
        ensures
            r.proven == 0,
            r.likely == 0,
            r.possible == 0,
            r.unknown == 0,
    {
        TierSummary { proven: 0, likely: 0, possible: 0, unknown: 0 }
    }
}

/// One more finding adds one to the count of its tier.
proof fn lemma_tier_count_step(s: Seq<FindingView>, t: Tier, i: int)
    requires
        0 <= i < s.len(),
    ensures
        tier_count(s.take(i + 1), t) == tier_count(s.take(i), t) + (if s[i].tier == t {
            1nat
        } else {
            0nat
        }),
{
    crate::text::lemma_filter_step(s, |f: FindingView| f.tier == t, i);
}

/// Number of findings of a tier.
pub fn count_tier(findings: &Vec<Finding>, t: Tier) -> (r: usize)
    ensures
        r == tier_count(finding_views(findings@), t),
{
    let ghost views = finding_views(findings@);
    let mut n: usize = 0;
    let mut i: usize = 0;
    proof {
        reveal(Seq::filter);
    }
    while i < findings.len()
        invariant
            i <= findings@.len(),
            views == finding_views(findings@),
            n <= i,
            n == tier_count(views.take(i as int), t),
        decreases findings@.len() - i,
    {
        proof {
            lemma_tier_count_step(views, t, i as int);
        }
        if findings[i].tier == t {
            n = n + 1;
        }
        i = i + 1;
    }
    proof {
        assert(views.take(findings@.len() as int) =~= views);
    }
    n
}

impl TierSummary {
    /// Tallies the findings by tier.
    pub fn from_findings(findings: &Vec<Finding>) -> (r: TierSummary)
        requires
            findings@.len() <= u32::MAX,
        ensures
            r.proven == tier_count(finding_views(findings@), Tier::Proven),
            r.likely == tier_count(finding_views(findings@), Tier::Likely),
            r.possible == tier_count(finding_views(findings@), Tier::Possible),
            r.unknown == tier_count(finding_views(findings@), Tier::Unknown),
    {
        let mut s = TierSummary::default();
        let ghost views = finding_views(findings@);
        let mut i: usize = 0;
        proof {
            reveal(Seq::filter);
        }
        while i < findings.len()
            invariant
                i <= findings@.len() <= u32::MAX,
                views == finding_views(findings@),
                s.proven == tier_count(views.take(i as int), Tier::Proven),
                s.likely == tier_count(views.take(i as int), Tier::Likely),
                s.possible == tier_count(views.take(i as int), Tier::Possible),
                s.unknown == tier_count(views.take(i as int), Tier::Unknown),
                s.proven + s.likely + s.possible + s.unknown == i,
            decreases findings@.len() - i,
        {
            proof {
                lemma_tier_count_step(views, Tier::Proven, i as int);
                lemma_tier_count_step(views, Tier::Likely, i as int);
                lemma_tier_count_step(views, Tier::Possible, i as int);
                lemma_tier_count_step(views, Tier::Unknown, i as int);
            }
            match findings[i].tier {
                Tier::Proven => {
                    s.proven = s.proven + 1;
                },
                Tier::Likely => {
                    s.likely = s.likely + 1;
                },
                Tier::Possible => {
                    s.possible = s.possible + 1;
                },
                Tier::Unknown => {
                    s.unknown = s.unknown + 1;
                },
            }
            i = i + 1;
        }
        proof {
            assert(views.take(findings@.len() as int) =~= views);
        }
        s
    }
}

/// Every finding is counted in exactly one tier.
pub proof fn tiers_partition_findings(s: Seq<FindingView>)
    ensures
        tier_count(s, Tier::Proven) + tier_count(s, Tier::Likely) + tier_count(s, Tier::Possible)
            + tier_count(s, Tier::Unknown) == s.len(),
    decreases s.len(),
{
    reveal(Seq::filter);
    if s.len() > 0 {
        tiers_partition_findings(s.drop_last());
        let i = s.len() - 1;
        lemma_tier_count_step(s, Tier::Proven, i);
        lemma_tier_count_step(s, Tier::Likely, i);
        lemma_tier_count_step(s, Tier::Possible, i);
        lemma_tier_count_step(s, Tier::Unknown, i);
        assert(s.take(i) =~= s.drop_last());
        assert(s.take(i + 1) =~= s);
    }
}

/// What breaks a build or a public surface is high, what may behave otherwise
/// medium, what only documents low.
pub proof fn severities_follow_what_breaks(k: KindView)
    ensures
        k is TraitImpl || k is DerivedTraitImpl || k is FfiSignatureChange
            || k is BuildScriptChanged || k is RuntimeSurface ==> kind_severity(k) is High,
        k is TestReference || k is DynDispatch || k is ResolvedReference ==> kind_severity(
            k,
        ) is Medium,
        k is DocDriftLink || k is DocDriftKeyword ==> kind_severity(k) is Low,
        k matches KindView::SemverCheck { level, .. } ==> {
            &&& kind_severity(k) is High <==> level == "breaking"@
            &&& kind_severity(k) is Medium <==> level == "minor"@ || level == "patch"@
            &&& !(kind_severity(k) is Low)
        },
        k matches KindView::TraitDefinitionChange { change, .. } ==> {
            &&& kind_severity(k) is High <==> change is RequiredMethodAdded
                || change is RequiredMethodSignatureChanged || change is MethodRemoved
            &&& kind_severity(k) is Medium <==> change is SupertraitOrBoundChanged
            &&& kind_severity(k) is Low <==> change is DefaultMethodAdded
                || change is DefaultMethodBodyChanged
        },
{
    reveal_strlit("breaking");
    reveal_strlit("minor");
    reveal_strlit("patch");
    assert("breaking"@.len() == 8);
    assert("minor"@.len() == 5);
    assert("patch"@.len() == 5);
}

/// A kind is about the file of the place that it names.
pub proof fn kinds_are_about_their_file(k: KindView)
    ensures
        k matches KindView::TestReference { test, .. } ==> kind_path(k) == Some(test.file),
        k matches KindView::TraitImpl { impl_site, .. } ==> kind_path(k) == Some(impl_site.file),
        k matches KindView::DerivedTraitImpl { derive_site, .. } ==> kind_path(k) == Some(
            derive_site.file,
        ),
        k matches KindView::DynDispatch { site, .. } ==> kind_path(k) == Some(site.file),
        k matches KindView::DocDriftLink { doc, .. } ==> kind_path(k) == Some(doc.file),
        k matches KindView::DocDriftKeyword { doc, .. } ==> kind_path(k) == Some(doc.file),
        k matches KindView::FfiSignatureChange { file, .. } ==> kind_path(k) == Some(file),
        k matches KindView::BuildScriptChanged { file } ==> kind_path(k) == Some(file),
        k matches KindView::ResolvedReference { target, .. } ==> kind_path(k) == Some(target.file),
        k matches KindView::RuntimeSurface { site, .. } ==> kind_path(k) == Some(site.file),
        k matches KindView::TraitDefinitionChange { file, .. } ==> kind_path(k) == Some(file),
{
}

/// A change that breaks implementors is likely, one of a default only possible;
/// the surer of two tiers never has the lesser confidence.
pub proof fn trait_changes_are_as_sure_as_they_break(a: TraitChange, b: TraitChange)
    ensures
        a.tier_spec() is Possible <==> a is DefaultMethodAdded || a is DefaultMethodBodyChanged,
        a.tier_spec() is Likely <==> !(a is DefaultMethodAdded || a is DefaultMethodBodyChanged),
        a.tier_spec().rank_spec() > b.tier_spec().rank_spec() ==> a.confidence_spec()
            > b.confidence_spec(),
        a.severity_spec().place_spec() < b.severity_spec().place_spec() ==> a.confidence_spec()
            > b.confidence_spec(),
        0 < a.confidence_spec() <= 95,
{
}

/// Tiers are ranked from the unknown to the proven, severities from the high to
/// the unknown.
pub proof fn tiers_and_severities_are_ordered(
    t: Tier,
    u: Tier,
    s: SeverityClass,
    v: SeverityClass,
)
    ensures
        Tier::Proven.rank_spec() > Tier::Likely.rank_spec() > Tier::Possible.rank_spec()
            > Tier::Unknown.rank_spec() >= 0,
        t.rank_spec() == u.rank_spec() ==> t == u,
        0 <= SeverityClass::High.place_spec() < SeverityClass::Medium.place_spec()
            < SeverityClass::Low.place_spec() < SeverityClass::Unknown.place_spec(),
        s.place_spec() == v.place_spec() ==> s == v,
{
}

/// A new finding keeps what it is given, but for a confidence out of range,
/// which is held at the nearer end.
pub proof fn new_findings_keep_what_they_are_given(
    id: Seq<char>,
    tier: Tier,
    confidence: int,
    kind: KindView,
    evidence: Seq<char>,
)
    ensures
        ({
            let f = new_finding(id, tier, confidence, kind, evidence);
            &&& f.id == id
            &&& f.tier == tier
            &&& f.kind == kind
            &&& f.evidence == evidence
            &&& f.suggested_action is None
            &&& f.severity == kind_severity(kind)
            &&& 0 <= f.confidence <= 100
            &&& 0 <= confidence <= 100 ==> f.confidence == confidence
            &&& confidence < 0 ==> f.confidence == 0
            &&& confidence > 100 ==> f.confidence == 100
        }),
{
}

/// Counts add up over two lists, and a finding counts in its own tier alone.
pub proof fn tier_counts_add_up(
    a: Seq<FindingView>,
    b: Seq<FindingView>,
    f: FindingView,
    t: Tier,
)
    ensures
        tier_count(a + b, t) == tier_count(a, t) + tier_count(b, t),
        f.tier == t ==> tier_count(seq![f], t) == 1,
        f.tier != t ==> tier_count(seq![f], t) == 0,
        tier_count(Seq::empty(), t) == 0,
    decreases b.len(),
{
    reveal(Seq::filter);
    let p = |f: FindingView| f.tier == t;
    assert(seq![f].drop_last() =~= Seq::empty());
    assert(Seq::<FindingView>::empty().filter(p) =~= Seq::empty());
    assert(seq![f].last() == f);
    if b.len() > 0 {
        assert((a + b).drop_last() =~= a + b.drop_last());
        assert((a + b).last() == b.last());
        tier_counts_add_up(a, b.drop_last(), f, t);
    } else {
        assert(a + b =~= a);
    }
}

/// The JSON object of a finding holds each of its parts under its name, and the
/// members of its kind; a suggested action just where there is one.
pub proof fn findings_are_written_whole(f: FindingView)
    ensures
        finding_members(f).contains(("id"@, JsonView::Text(f.id))),
        finding_members(f).contains(("severity"@, JsonView::Text(f.severity.slug_spec()))),
        finding_members(f).contains(("tier"@, JsonView::Text(f.tier.slug_spec()))),
        finding_members(f).contains(("confidence"@, JsonView::Hundredths(f.confidence))),
        finding_members(f).contains(("evidence"@, JsonView::Text(f.evidence))),
        finding_members(f).contains(("kind"@, JsonView::Text(kind_tag(f.kind)))),
        forall|i: int|
            0 <= i < kind_members(f.kind).len() ==> finding_members(f).contains(
                #[trigger] kind_members(f.kind)[i],
            ),
        f.suggested_action matches Some(a) ==> finding_members(f).contains(
            ("suggested_action"@, JsonView::Text(a)),
        ) && finding_members(f).len() == kind_members(f.kind).len() + 6,
        f.suggested_action is None ==> finding_members(f).len() == kind_members(f.kind).len() + 5,
{
    let m = finding_members(f);
    let k = kind_members(f.kind);
    assert(m[0] == ("id"@, JsonView::Text(f.id)));
    assert(m[1] == ("severity"@, JsonView::Text(f.severity.slug_spec())));
    assert(m[2] == ("tier"@, JsonView::Text(f.tier.slug_spec())));
    assert(m[3] == ("confidence"@, JsonView::Hundredths(f.confidence)));
    assert(m[4int + k.len()] == ("evidence"@, JsonView::Text(f.evidence)));
    assert forall|i: int| 0 <= i < k.len() implies m.contains(#[trigger] k[i]) by {
        assert(m[4 + i] == k[i]);
    }
    assert(k[0] == ("kind"@, JsonView::Text(kind_tag(f.kind))));
    if let Some(a) = f.suggested_action {
        assert(m[5int + k.len()] == ("suggested_action"@, JsonView::Text(a)));
    }
}

} // verus!
