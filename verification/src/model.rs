//! The kernel's data model: plugin manifests, plugin settings and the
//! kernel's lifecycle state, with the rules that make them valid.
use vstd::prelude::*;
use vstd::string::*;

use crate::error::{failure_of, ErrorView, KernelError};
use crate::text::{
    ascii_alnum, blank, debug_quoted, debug_text, decimal, decimal_text, is_ascii_alnum, is_blank,
    is_white_space, text_eq, texts,
};
use crate::textmap::{TextMap, TextSet};

verus! {

/// The JSON value of a plugin setting, carried through the kernel as it is.
#[verifier::external_type_specification]
#[verifier::external_body]
pub struct ExJsonValue(serde_json::Value);

/// A copy of a JSON value.
///
/// Trusted: calls `Clone::clone` on `serde_json::Value`, which serde_json
/// derives; the claim is that the copy is the same value.
#[verifier::external_body]
pub(crate) fn copy_json(value: &serde_json::Value) -> (c: serde_json::Value)
    ensures
        c == *value,
{
    value.clone()
}

/// The schema version of every persisted document.
pub const DATA_SCHEMA_VERSION: u32 = 1;

/// The identifier of the built-in kernel plugin.
pub const KERNEL_PLUGIN_ID: &'static str = "kernel";

pub open spec fn kernel_id() -> Seq<char> {
    KERNEL_PLUGIN_ID@
}

/// The kind of a plugin: the kernel itself, or a managed process.
#[derive(Debug, Clone, Copy, PartialEq, Eq, Structural)]
pub enum PluginKind {
    Builtin,
    Process,
}

/// A semantic version: its three numbers and the text of its pre-release
/// and build parts (empty where there is none).
#[derive(Debug, Clone)]
pub struct PluginVersion {
    pub major: u64,
    pub minor: u64,
    pub patch: u64,
    pub pre: String,
    pub build: String,
}

impl PluginVersion {
    /// `major.minor.patch` with no pre-release or build part.
    pub fn new(major: u64, minor: u64, patch: u64) -> (v: PluginVersion)
        ensures
            v.major == major,
            v.minor == minor,
            v.patch == patch,
            v.pre@ == Seq::<char>::empty(),
            v.build@ == Seq::<char>::empty(),
    {
        PluginVersion { major, minor, patch, pre: String::new(), build: String::new() }
    }
}

/// How a process plugin is started and stopped.
pub struct RuntimeSpec {
    pub entrypoint: String,
    pub args: Vec<String>,
    pub environment: TextMap<String>,
    pub stop_timeout_ms: u64,
}

/// The stop timeout a runtime gets when its manifest names none.
pub fn default_stop_timeout_ms() -> (r: u64)
    ensures
        r == 5000,
{
    5_000
}

/// A plugin's main manifest.
pub struct PluginManifest {
    pub schema_version: u32,
    pub id: String,
    pub name: String,
    pub version: PluginVersion,
    pub kind: PluginKind,
    pub runtime: Option<RuntimeSpec>,
    pub provides: Vec<String>,
    pub requires: Vec<String>,
}

// ---------------------------------------------------------------------------
// Identifiers and symbols

pub open spec fn is_identifier_char(c: char) -> bool {
    is_ascii_alnum(c) || c == '.' || c == '-' || c == '_'
}

pub open spec fn has_double_dot(s: Seq<char>) -> bool {
    exists|i: int| 0 <= i && i + 1 < s.len() && #[trigger] s[i] == '.' && s[i + 1] == '.'
}

/// A safe identifier: 1 to 64 ASCII letters, digits, `.`, `-` or `_`,
/// starting with a letter or digit, with no `..` in it.
pub open spec fn is_identifier(s: Seq<char>) -> bool {
    &&& 1 <= s.len() <= 64
    &&& forall|i: int| 0 <= i < s.len() ==> is_identifier_char(#[trigger] s[i])
    &&& is_ascii_alnum(s[0])
    &&& !has_double_dot(s)
}

pub open spec fn identifier_error(value: Seq<char>, label: Seq<char>) -> ErrorView {
    ErrorView::InvalidData(
        label + " "@ + debug_text(value)
            + " must be 1-64 ASCII letters, digits, '.', '-' or '_' and must not contain '..'"@,
    )
}

/// What `validate_identifier` reports for a value.
pub open spec fn identifier_failure(value: Seq<char>, label: Seq<char>) -> Option<ErrorView> {
    if is_identifier(value) {
        None
    } else {
        Some(identifier_error(value, label))
    }
}

fn identifier_chars_ok(value: &str) -> (r: bool)
    ensures
        r == (forall|i: int| 0 <= i < value@.len() ==> is_identifier_char(#[trigger] value@[i])
            && !has_double_dot(value@)),
{
    let n: usize = value.unicode_len();
    let mut i: usize = 0;
    let mut prev_dot: bool = false;
    while i < n
        invariant
            n == value@.len(),
            i <= n,
            forall|j: int| 0 <= j < i ==> is_identifier_char(#[trigger] value@[j]),
            forall|j: int| 0 <= j && j + 1 < i ==> !(#[trigger] value@[j] == '.' && value@[j + 1] == '.'),
            prev_dot == (i > 0 && value@[i - 1] == '.'),
        decreases n - i,
    {
        let c: char = value.get_char(i);
        if !(ascii_alnum(c) || c == '.' || c == '-' || c == '_') {
            return false;
        }
        if c == '.' && prev_dot {
            assert(value@[i - 1] == '.' && value@[(i - 1) + 1] == '.');
            return false;
        }
        prev_dot = c == '.';
        i = i + 1;
    }
    true
}

/// Checks that `value` is a safe identifier; `label` names it in the error.
pub fn validate_identifier(value: &str, label: &str) -> (r: Result<(), KernelError>)
    ensures
        failure_of(r) == identifier_failure(value@, label@),
{
    let n: usize = value.unicode_len();
    let valid = n >= 1 && n <= 64 && identifier_chars_ok(value) && ascii_alnum(value.get_char(0));
    if valid {
        Ok(())
    } else {
        let mut message = label.to_owned();
        message.append(" ");
        message.append(debug_quoted(value).as_str());
        message.append(
            " must be 1-64 ASCII letters, digits, '.', '-' or '_' and must not contain '..'",
        );
        Err(KernelError::InvalidData(message))
    }
}

pub open spec fn is_symbol_char(c: char) -> bool {
    is_ascii_alnum(c) || c == '.' || c == '-' || c == '_' || c == '/'
}

/// A service symbol: 1 to 128 ASCII letters, digits, `.`, `-`, `_` or `/`.
pub open spec fn is_symbol(s: Seq<char>) -> bool {
    &&& 1 <= s.len() <= 128
    &&& forall|i: int| 0 <= i < s.len() ==> is_symbol_char(#[trigger] s[i])
}

pub open spec fn symbol_error(value: Seq<char>, label: Seq<char>) -> ErrorView {
    ErrorView::InvalidData(label + " "@ + debug_text(value) + " contains unsupported characters"@)
}

/// Checks that `value` is a service symbol; `label` names it in the error.
pub fn validate_symbol(value: &str, label: &str) -> (r: Result<(), KernelError>)
    ensures
        failure_of(r) == (if is_symbol(value@) {
            None
        } else {
            Some(symbol_error(value@, label@))
        }),
{
    let n: usize = value.unicode_len();
    let mut valid: bool = n >= 1 && n <= 128;
    let mut i: usize = 0;
    while valid && i < n
        invariant
            n == value@.len(),
            i <= n,
            valid ==> 1 <= n <= 128,
            valid ==> forall|j: int| 0 <= j < i ==> is_symbol_char(#[trigger] value@[j]),
            !valid ==> !is_symbol(value@),
        decreases n - i,
    {
        let c: char = value.get_char(i);
        if !(ascii_alnum(c) || c == '.' || c == '-' || c == '_' || c == '/') {
            valid = false;
        }
        i = i + 1;
    }
    if valid {
        Ok(())
    } else {
        let mut message = label.to_owned();
        message.append(" ");
        message.append(debug_quoted(value).as_str());
        message.append(" contains unsupported characters");
        Err(KernelError::InvalidData(message))
    }
}

// ---------------------------------------------------------------------------
// Runtime entrypoints

/// An absolute path starts at the root directory.
pub open spec fn is_absolute_path(s: Seq<char>) -> bool {
    s.len() > 0 && s[0] == '/'
}

/// Whether some `/`-separated segment of the path is `..`, which is when the
/// path has a parent-directory component.
pub open spec fn has_parent_segment(s: Seq<char>) -> bool {
    exists|i: int|
        0 <= i && i + 2 <= s.len() && #[trigger] s[i] == '.' && s[i + 1] == '.' && (i == 0 || s[i
            - 1] == '/') && (i + 2 == s.len() || s[i + 2] == '/')
}

/// Whether the first component of a relative path is the directory `bin`.
pub open spec fn starts_in_bin(s: Seq<char>) -> bool {
    s.len() >= 3 && s[0] == 'b' && s[1] == 'i' && s[2] == 'n' && (s.len() == 3 || s[3] == '/')
}

pub open spec fn runtime_failure(r: &RuntimeSpec) -> Option<ErrorView> {
    let e = r.entrypoint@;
    if is_blank(e) || is_absolute_path(e) {
        Some(ErrorView::InvalidData("runtime.entrypoint must be a non-empty relative path"@))
    } else if has_parent_segment(e) {
        Some(ErrorView::InvalidData("runtime.entrypoint must stay inside the plugin directory"@))
    } else if !starts_in_bin(e) {
        Some(ErrorView::InvalidData("runtime.entrypoint must be located under bin/"@))
    } else if r.stop_timeout_ms == 0 || r.stop_timeout_ms > 60000 {
        Some(ErrorView::InvalidData("runtime.stop_timeout_ms must be between 1 and 60000"@))
    } else {
        None
    }
}

fn parent_segment(s: &str) -> (r: bool)
    ensures
        r == has_parent_segment(s@),
{
    let n: usize = s.unicode_len();
    let mut i: usize = 0;
    while n >= 2 && i <= n - 2
        invariant
            n == s@.len(),
            forall|j: int|
                0 <= j < i && j + 2 <= n ==> !(#[trigger] s@[j] == '.' && s@[j + 1] == '.' && (j == 0
                    || s@[j - 1] == '/') && (j + 2 == n || s@[j + 2] == '/')),
        decreases n - i,
    {
        if s.get_char(i) == '.' && s.get_char(i + 1) == '.' && (i == 0 || s.get_char(i - 1) == '/')
            && (i + 2 == n || s.get_char(i + 2) == '/') {
            return true;
        }
        i = i + 1;
    }
    false
}

fn in_bin(s: &str) -> (r: bool)
    ensures
        r == starts_in_bin(s@),
{
    let n: usize = s.unicode_len();
    n >= 3 && s.get_char(0) == 'b' && s.get_char(1) == 'i' && s.get_char(2) == 'n' && (n == 3
        || s.get_char(3) == '/')
}

impl RuntimeSpec {
    /// Checks that the entrypoint is a relative path under `bin/` that stays
    /// inside the plugin directory, and that the stop timeout is 1..=60000 ms.
    pub fn validate(&self) -> (r: Result<(), KernelError>)
        ensures
            failure_of(r) == runtime_failure(self),
    {
        let e = self.entrypoint.as_str();
        let n: usize = e.unicode_len();
        if blank(e) || (n > 0 && e.get_char(0) == '/') {
            return Err(
                KernelError::InvalidData(
                    "runtime.entrypoint must be a non-empty relative path".to_owned(),
                ),
            );
        }
        if parent_segment(e) {
            return Err(
                KernelError::InvalidData(
                    "runtime.entrypoint must stay inside the plugin directory".to_owned(),
                ),
            );
        }
        if !in_bin(e) {
            return Err(
                KernelError::InvalidData("runtime.entrypoint must be located under bin/".to_owned()),
            );
        }
        if self.stop_timeout_ms == 0 || self.stop_timeout_ms > 60_000 {
            return Err(
                KernelError::InvalidData(
                    "runtime.stop_timeout_ms must be between 1 and 60000".to_owned(),
                ),
            );
        }
        Ok(())
    }
}

// ---------------------------------------------------------------------------
// Manifests

pub open spec fn schema_error(subject: Seq<char>, found: u32) -> ErrorView {
    ErrorView::InvalidData(
        subject + " uses schema_version "@ + decimal(found as nat) + ", expected "@ + decimal(1),
    )
}

fn schema_message(subject: String, found: u32) -> (e: KernelError)
    ensures
        e@ == schema_error(subject@, found),
{
    let mut m = subject;
    m.append(" uses schema_version ");
    m.append(decimal_text(found as u64).as_str());
    m.append(", expected ");
    m.append(decimal_text(DATA_SCHEMA_VERSION as u64).as_str());
    KernelError::InvalidData(m)
}

/// The first provided service that is not a valid symbol, reported.
pub open spec fn symbols_failure(items: Seq<Seq<char>>) -> Option<ErrorView>
    decreases items.len(),
{
    if items.len() == 0 {
        None
    } else if !is_symbol(items[0]) {
        Some(symbol_error(items[0], "provided service"@))
    } else {
        symbols_failure(items.drop_first())
    }
}

/// The first dependency that is not an identifier or is the plugin itself.
pub open spec fn dependencies_failure(items: Seq<Seq<char>>, id: Seq<char>) -> Option<ErrorView>
    decreases items.len(),
{
    if items.len() == 0 {
        None
    } else if !is_identifier(items[0]) {
        Some(identifier_error(items[0], "plugin dependency"@))
    } else if items[0] == id {
        Some(ErrorView::InvalidData("plugin "@ + id + " depends on itself"@))
    } else {
        dependencies_failure(items.drop_first(), id)
    }
}

/// What `PluginManifest::validate` reports, checking in this order: the
/// schema version, the id, the name, the provided services, the
/// dependencies, and the kind against the runtime.
pub open spec fn manifest_failure(m: &PluginManifest) -> Option<ErrorView> {
    let id = m.id@;
    if m.schema_version != 1 {
        Some(schema_error("plugin "@ + id, m.schema_version))
    } else if !is_identifier(id) {
        Some(identifier_error(id, "plugin id"@))
    } else if is_blank(m.name@) {
        Some(ErrorView::InvalidData("plugin "@ + id + " has an empty name"@))
    } else if symbols_failure(texts(m.provides@)) is Some {
        symbols_failure(texts(m.provides@))
    } else if dependencies_failure(texts(m.requires@), id) is Some {
        dependencies_failure(texts(m.requires@), id)
    } else {
        match (m.kind, &m.runtime) {
            (PluginKind::Builtin, None) => if id == kernel_id() {
                None
            } else {
                Some(ErrorView::InvalidData("plugin "@ + id + " cannot use reserved kind builtin"@))
            },
            (PluginKind::Process, Some(r)) => runtime_failure(r),
            (PluginKind::Builtin, Some(_)) => Some(
                ErrorView::InvalidData("builtin plugin "@ + id + " must not define runtime"@),
            ),
            (PluginKind::Process, None) => Some(
                ErrorView::InvalidData("process plugin "@ + id + " must define runtime"@),
            ),
        }
    }
}

/// The manifest of the built-in kernel plugin.
pub open spec fn is_kernel_builtin(m: &PluginManifest) -> bool {
    &&& m.schema_version == 1
    &&& m.id@ == kernel_id()
    &&& m.name@ == "EasOS Kernel"@
    &&& m.version.major == 0 && m.version.minor == 1 && m.version.patch == 0
    &&& m.version.pre@ == Seq::<char>::empty() && m.version.build@ == Seq::<char>::empty()
    &&& m.kind == PluginKind::Builtin
    &&& m.runtime is None
    &&& texts(m.provides@) == seq!["kernel.lifecycle.v1"@]
    &&& m.requires@.len() == 0
}

fn message3(a: &str, b: &str, c: &str) -> (s: String)
    ensures
        s@ == a@ + b@ + c@,
{
    let mut s = a.to_owned();
    s.append(b);
    s.append(c);
    s
}

impl PluginManifest {
    /// Checks the manifest against the data model's rules.
    pub fn validate(&self) -> (r: Result<(), KernelError>)
        ensures
            failure_of(r) == manifest_failure(self),
    {
        if self.schema_version != DATA_SCHEMA_VERSION {
            let mut subject = "plugin ".to_owned();
            subject.append(self.id.as_str());
            return Err(schema_message(subject, self.schema_version));
        }
        if let Err(e) = validate_identifier(self.id.as_str(), "plugin id") {
            return Err(e);
        }
        if blank(self.name.as_str()) {
            return Err(
                KernelError::InvalidData(
                    message3("plugin ", self.id.as_str(), " has an empty name"),
                ),
            );
        }
        let n: usize = self.provides.len();
        let mut i: usize = 0;
        let ghost all = texts(self.provides@);
        assert(all.skip(0) =~= all);
        while i < n
            invariant
                n == self.provides@.len(),
                all == texts(self.provides@),
                self.schema_version == 1,
                is_identifier(self.id@),
                !is_blank(self.name@),
                i <= n,
                symbols_failure(all) == symbols_failure(all.skip(i as int)),
            decreases n - i,
        {
            proof {
                assert(all.skip(i as int).drop_first() =~= all.skip(i + 1));
                assert(all.skip(i as int)[0] == self.provides@[i as int]@);
            }
            if let Err(e) = validate_symbol(self.provides[i].as_str(), "provided service") {
                return Err(e);
            }
            i = i + 1;
        }
        let n: usize = self.requires.len();
        let mut i: usize = 0;
        let ghost all = texts(self.requires@);
        assert(all.skip(0) =~= all);
        assert(all.skip(n as int) =~= Seq::<Seq<char>>::empty());
        while i < n
            invariant
                n == self.requires@.len(),
                all == texts(self.requires@),
                self.schema_version == 1,
                is_identifier(self.id@),
                !is_blank(self.name@),
                symbols_failure(texts(self.provides@)) is None,
                i <= n,
                dependencies_failure(all, self.id@) == dependencies_failure(all.skip(i as int), self.id@),
            decreases n - i,
        {
            proof {
                assert(all.skip(i as int).drop_first() =~= all.skip(i + 1));
                assert(all.skip(i as int)[0] == self.requires@[i as int]@);
            }
            if let Err(e) = validate_identifier(self.requires[i].as_str(), "plugin dependency") {
                return Err(e);
            }
            if text_eq(self.requires[i].as_str(), self.id.as_str()) {
                return Err(
                    KernelError::InvalidData(
                        message3("plugin ", self.id.as_str(), " depends on itself"),
                    ),
                );
            }
            i = i + 1;
        }
        match (&self.kind, &self.runtime) {
            (PluginKind::Builtin, None) => {
                if text_eq(self.id.as_str(), KERNEL_PLUGIN_ID) {
                    Ok(())
                } else {
                    Err(
                        KernelError::InvalidData(
                            message3("plugin ", self.id.as_str(), " cannot use reserved kind builtin"),
                        ),
                    )
                }
            },
            (PluginKind::Process, Some(runtime)) => runtime.validate(),
            (PluginKind::Builtin, Some(_)) => Err(
                KernelError::InvalidData(
                    message3("builtin plugin ", self.id.as_str(), " must not define runtime"),
                ),
            ),
            (PluginKind::Process, None) => Err(
                KernelError::InvalidData(
                    message3("process plugin ", self.id.as_str(), " must define runtime"),
                ),
            ),
        }
    }

    /// The manifest of the built-in kernel plugin.
    pub fn kernel_builtin() -> (m: PluginManifest)
        ensures
            is_kernel_builtin(&m),
    {
        let m = PluginManifest {
            schema_version: DATA_SCHEMA_VERSION,
            id: KERNEL_PLUGIN_ID.to_owned(),
            name: "EasOS Kernel".to_owned(),
            version: PluginVersion::new(0, 1, 0),
            kind: PluginKind::Builtin,
            runtime: None,
            provides: vec!["kernel.lifecycle.v1".to_owned()],
            requires: Vec::new(),
        };
        assert(texts(m.provides@) =~= seq!["kernel.lifecycle.v1"@]);
        m
    }

    /// Whether this is, field for field, the built-in kernel manifest.
    pub fn is_kernel_builtin(&self) -> (r: bool)
        ensures
            r == is_kernel_builtin(self),
    {
        let provides_ok = self.provides.len() == 1 && text_eq(
            self.provides[0].as_str(),
            "kernel.lifecycle.v1",
        );
        proof {
            let t = texts(self.provides@);
            assert(t.len() == self.provides@.len());
            if provides_ok {
                assert(t =~= seq!["kernel.lifecycle.v1"@]);
            }
            if t == seq!["kernel.lifecycle.v1"@] {
                assert(t[0] == self.provides@[0]@);
            }
            if self.version.pre@.len() == 0 {
                assert(self.version.pre@ =~= Seq::<char>::empty());
            }
            if self.version.build@.len() == 0 {
                assert(self.version.build@ =~= Seq::<char>::empty());
            }
        }
        self.schema_version == DATA_SCHEMA_VERSION && text_eq(self.id.as_str(), KERNEL_PLUGIN_ID)
            && text_eq(self.name.as_str(), "EasOS Kernel") && self.version.major == 0
            && self.version.minor == 1 && self.version.patch == 0 && self.version.pre.unicode_len()
            == 0 && self.version.build.unicode_len() == 0 && self.kind == PluginKind::Builtin
            && self.runtime.is_none() && provides_ok && self.requires.len() == 0
    }
}

// ---------------------------------------------------------------------------
// Settings and kernel state

/// A plugin's own settings, kept in its `config/main.json`.
pub struct PluginSettings {
    pub schema_version: u32,
    pub settings: TextMap<serde_json::Value>,
}

impl PluginSettings {
    /// What `validate` reports.
    pub open spec fn failure(&self) -> Option<ErrorView> {
        if self.schema_version != 1 {
            Some(schema_error("plugin config"@, self.schema_version))
        } else {
            None
        }
    }

    /// Checks the schema version.
    pub fn validate(&self) -> (r: Result<(), KernelError>)
        ensures
            failure_of(r) == self.failure(),
    {
        if self.schema_version != DATA_SCHEMA_VERSION {
            return Err(schema_message("plugin config".to_owned(), self.schema_version));
        }
        Ok(())
    }
}

impl PluginSettings {
    /// Sets a setting, replacing an earlier value of the key.
    pub fn set(&mut self, key: String, value: serde_json::Value)
        ensures
            final(self).schema_version == old(self).schema_version,
            final(self).settings@ == old(self).settings@.insert(key@, value),
    {
        self.settings.insert(key, value);
    }

    /// Removes a setting.
    pub fn unset(&mut self, key: &str)
        ensures
            final(self).schema_version == old(self).schema_version,
            final(self).settings@ == old(self).settings@.remove(key@),
    {
        let _ = self.settings.remove(key);
    }
}

impl Default for PluginSettings {
    fn default() -> (s: PluginSettings)
        ensures
            s.schema_version == 1,
            s.settings@ == Map::<Seq<char>, serde_json::Value>::empty(),
            s.settings.keys().len() == 0,
    {
        PluginSettings { schema_version: DATA_SCHEMA_VERSION, settings: TextMap::new() }
    }
}

/// The kernel's lifecycle state: which plugins start with the kernel.
pub struct KernelState {
    pub schema_version: u32,
    pub autostart: TextSet,
}

/// The first autostart entry that is not an identifier or is the kernel.
pub open spec fn autostart_failure(ids: Seq<Seq<char>>) -> Option<ErrorView>
    decreases ids.len(),
{
    if ids.len() == 0 {
        None
    } else if !is_identifier(ids[0]) {
        Some(identifier_error(ids[0], "autostart plugin id"@))
    } else if ids[0] == kernel_id() {
        Some(ErrorView::InvalidData("kernel must not appear in the autostart list"@))
    } else {
        autostart_failure(ids.drop_first())
    }
}

impl KernelState {
    /// What `validate` reports: the schema version first, then the autostart
    /// entries in order.
    pub open spec fn failure(&self) -> Option<ErrorView> {
        if self.schema_version != 1 {
            Some(schema_error("kernel state"@, self.schema_version))
        } else {
            autostart_failure(self.autostart.elements())
        }
    }

    /// Checks the schema version and that every autostart entry names a
    /// plugin other than the kernel.
    pub fn validate(&self) -> (r: Result<(), KernelError>)
        ensures
            failure_of(r) == self.failure(),
    {
        if self.schema_version != DATA_SCHEMA_VERSION {
            return Err(schema_message("kernel state".to_owned(), self.schema_version));
        }
        let n: usize = self.autostart.len();
        let mut i: usize = 0;
        let ghost all = self.autostart.elements();
        assert(all.skip(0) =~= all);
        while i < n
            invariant
                n == all.len(),
                all == self.autostart.elements(),
                self.schema_version == 1,
                i <= n,
                autostart_failure(all) == autostart_failure(all.skip(i as int)),
            decreases n - i,
        {
            proof {
                assert(all.skip(i as int).drop_first() =~= all.skip(i + 1));
            }
            let id = self.autostart.at(i);
            assert(all.skip(i as int)[0] == id@);
            if let Err(e) = validate_identifier(id.as_str(), "autostart plugin id") {
                return Err(e);
            }
            if text_eq(id.as_str(), KERNEL_PLUGIN_ID) {
                return Err(
                    KernelError::InvalidData(
                        "kernel must not appear in the autostart list".to_owned(),
                    ),
                );
            }
            i = i + 1;
        }
        Ok(())
    }
}

impl Default for KernelState {
    fn default() -> (s: KernelState)
        ensures
            s.schema_version == 1,
            s.autostart@ == Set::<Seq<char>>::empty(),
            s.autostart.elements().len() == 0,
    {
        KernelState { schema_version: DATA_SCHEMA_VERSION, autostart: TextSet::new() }
    }
}

// ---------------------------------------------------------------------------
// Views reported to clients

/// The lifecycle state of a plugin as clients see it.
#[derive(Debug, Clone, Copy, PartialEq, Eq, Structural)]
pub enum PluginState {
    Builtin,
    Installed,
    Running,
    Exited,
}

/// What the kernel reports about one plugin.
pub struct PluginView {
    pub id: String,
    pub name: String,
    pub version: PluginVersion,
    pub kind: PluginKind,
    pub state: PluginState,
    pub autostart: bool,
    pub path: String,
    pub last_exit: Option<i32>,
    pub settings: TextMap<serde_json::Value>,
}

/// A workspace directory that looks like a plugin but could not be loaded.
pub struct InvalidPlugin {
    pub directory: String,
    pub error: String,
}

/// Everything the kernel knows about the plugins of its workspace.
pub struct Inventory {
    pub plugins: Vec<PluginView>,
    pub invalid_directories: Vec<InvalidPlugin>,
}

// ---------------------------------------------------------------------------
// Laws

proof fn lemma_autostart_failure_elementwise(ids: Seq<Seq<char>>)
    ensures
        autostart_failure(ids) is None <==> forall|i: int|
            0 <= i < ids.len() ==> is_identifier(#[trigger] ids[i]) && ids[i] != kernel_id(),
    decreases ids.len(),
{
    if ids.len() > 0 {
        lemma_autostart_failure_elementwise(ids.drop_first());
        if autostart_failure(ids) is None {
            assert forall|i: int| 0 <= i < ids.len() implies is_identifier(#[trigger] ids[i]) && ids[i] != kernel_id() by {
                if i > 0 {
                    assert(ids[i] == ids.drop_first()[i - 1]);
                }
            }
        }
        if forall|i: int| 0 <= i < ids.len() ==> is_identifier(#[trigger] ids[i]) && ids[i] != kernel_id() {
            assert forall|i: int| 0 <= i < ids.drop_first().len() implies is_identifier(#[trigger] ids.drop_first()[i])
                && ids.drop_first()[i] != kernel_id() by {
                assert(ids.drop_first()[i] == ids[i + 1]);
            }
            assert(is_identifier(ids[0]) && ids[0] != kernel_id());
        }
    }
}

/// Law: a kernel state is valid exactly when its schema version is current
/// and every autostart entry is a plugin identifier other than the kernel's.
pub proof fn lemma_kernel_state_valid(state: KernelState)
    ensures
        state.failure() is None <==> (state.schema_version == 1 && forall|x: Seq<char>| #[trigger]
            state.autostart@.contains(x) ==> is_identifier(x) && x != kernel_id()),
{
    let e = state.autostart.elements();
    lemma_autostart_failure_elementwise(e);
    if state.schema_version == 1 {
        if state.failure() is None {
            assert forall|x: Seq<char>| #[trigger] state.autostart@.contains(x) implies is_identifier(x) && x != kernel_id() by {
                let i = choose|i: int| 0 <= i < e.len() && e[i] == x;
            }
        }
        if forall|x: Seq<char>| #[trigger] state.autostart@.contains(x) ==> is_identifier(x) && x != kernel_id() {
            assert forall|i: int| 0 <= i < e.len() implies is_identifier(#[trigger] e[i]) && e[i] != kernel_id() by {
                assert(state.autostart@.contains(e[i]));
            }
        }
    }
}

/// Law: turning autostart on for a plugin identifier other than the
/// kernel's, or turning it off for any plugin, keeps a valid kernel state
/// valid, so it can be written back.
pub proof fn lemma_autostart_change_keeps_state_valid(
    before: KernelState,
    after: KernelState,
    id: Seq<char>,
    enabled: bool,
)
    requires
        before.failure() is None,
        after.schema_version == before.schema_version,
        after.autostart@ == (if enabled {
            before.autostart@.insert(id)
        } else {
            before.autostart@.remove(id)
        }),
        enabled ==> is_identifier(id) && id != kernel_id(),
    ensures
        after.failure() is None,
{
    lemma_kernel_state_valid(before);
    lemma_kernel_state_valid(after);
    assert forall|x: Seq<char>| #[trigger] after.autostart@.contains(x) implies is_identifier(x) && x != kernel_id() by {
        if x != id || !enabled {
            assert(before.autostart@.contains(x));
        }
    }
}

/// Law: the built-in kernel manifest passes validation.
pub proof fn lemma_kernel_builtin_valid(m: &PluginManifest)
    requires
        is_kernel_builtin(m),
    ensures
        manifest_failure(m) is None,
{
    reveal_strlit("kernel");
    reveal_strlit("EasOS Kernel");
    reveal_strlit("kernel.lifecycle.v1");
    let id = m.id@;
    assert(is_identifier(id)) by {
        assert(id.len() == 6);
        assert forall|i: int| 0 <= i < id.len() implies is_identifier_char(#[trigger] id[i]) by {}
        if has_double_dot(id) {
            let i = choose|i: int| 0 <= i && i + 1 < id.len() && #[trigger] id[i] == '.' && id[i + 1] == '.';
        }
    }
    assert(!is_blank(m.name@)) by {
        assert(!is_white_space(m.name@[0]));
    }
    let p = texts(m.provides@);
    assert(symbols_failure(p) is None) by {
        let s0 = p[0];
        assert(is_symbol(s0)) by {
            assert(s0.len() == 19);
            assert forall|i: int| 0 <= i < s0.len() implies is_symbol_char(#[trigger] s0[i]) by {}
        }
        assert(p.drop_first().len() == 0);
        assert(symbols_failure(p.drop_first()) is None);
    }
    assert(texts(m.requires@).len() == 0);
    assert(dependencies_failure(texts(m.requires@), id) is None);
}

proof fn lemma_dependencies_failure_elementwise(items: Seq<Seq<char>>, id: Seq<char>)
    requires
        dependencies_failure(items, id) is None,
    ensures
        forall|i: int| 0 <= i < items.len() ==> is_identifier(#[trigger] items[i]) && items[i] != id,
    decreases items.len(),
{
    if items.len() > 0 {
        lemma_dependencies_failure_elementwise(items.drop_first(), id);
        assert forall|i: int| 0 <= i < items.len() implies is_identifier(#[trigger] items[i]) && items[i] != id by {
            if i > 0 {
                assert(items[i] == items.drop_first()[i - 1]);
            }
        }
    }
}

/// Law: a valid manifest has an identifier as its id and dependencies that
/// are identifiers other than its own id; only the kernel can be built in,
/// without a runtime, and a process plugin has a valid runtime.
pub proof fn lemma_valid_manifest_shape(m: &PluginManifest)
    requires
        manifest_failure(m) is None,
    ensures
        is_identifier(m.id@),
        forall|i: int|
            0 <= i < m.requires@.len() ==> is_identifier(#[trigger] m.requires@[i]@) && m.requires@[i]@
                != m.id@,
        m.kind == PluginKind::Builtin ==> m.id@ == kernel_id() && m.runtime is None,
        m.kind == PluginKind::Process ==> m.runtime is Some && runtime_failure(&m.runtime->0) is None,
{
    let deps = texts(m.requires@);
    lemma_dependencies_failure_elementwise(deps, m.id@);
    assert forall|i: int| 0 <= i < m.requires@.len() implies is_identifier(#[trigger] m.requires@[i]@)
        && m.requires@[i]@ != m.id@ by {
        assert(deps[i] == m.requires@[i]@);
    }
}

/// A character allowed in a service symbol, spelled out: an ASCII letter
/// or digit, `.`, `-`, `_` or `/`.
pub open spec fn symbol_char_spelled(c: char) -> bool {
    ||| ('a' <= c && c <= 'z')
    ||| ('A' <= c && c <= 'Z')
    ||| ('0' <= c && c <= '9')
    ||| c == '.'
    ||| c == '-'
    ||| c == '_'
    ||| c == '/'
}

/// Law: a service symbol is accepted exactly when it has 1 to 128
/// characters, each an ASCII letter or digit, `.`, `-`, `_` or `/`; any
/// other text is refused with the unsupported-characters message.
pub proof fn lemma_symbols_accepted(value: Seq<char>, label: Seq<char>)
    ensures
        is_symbol(value) <==> (1 <= value.len() <= 128 && forall|i: int|
            0 <= i < value.len() ==> symbol_char_spelled(#[trigger] value[i])),
        !is_symbol(value) ==> symbol_error(value, label) == ErrorView::InvalidData(
            label + " "@ + debug_text(value) + " contains unsupported characters"@,
        ),
{
}

/// A character allowed in a plugin identifier, spelled out: an ASCII letter
/// or digit, `.`, `-` or `_`.
pub open spec fn identifier_char_spelled(c: char) -> bool {
    ||| ('a' <= c && c <= 'z')
    ||| ('A' <= c && c <= 'Z')
    ||| ('0' <= c && c <= '9')
    ||| c == '.'
    ||| c == '-'
    ||| c == '_'
}

/// Law: a plugin identifier is accepted exactly when it has 1 to 64
/// characters, each an ASCII letter or digit, `.`, `-` or `_`, starts with a
/// letter or digit, and has no `..` in it.
pub proof fn lemma_identifiers_accepted(value: Seq<char>)
    ensures
        is_identifier(value) <==> {
            &&& 1 <= value.len() <= 64
            &&& forall|i: int| 0 <= i < value.len() ==> identifier_char_spelled(#[trigger] value[i])
            &&& (('a' <= value[0] && value[0] <= 'z') || ('A' <= value[0] && value[0] <= 'Z') || ('0' <= value[0]
                && value[0] <= '9'))
            &&& forall|i: int| 0 <= i < value.len() - 1 ==> !(#[trigger] value[i] == '.' && value[i + 1] == '.')
        },
{
    if !has_double_dot(value) {
        assert forall|i: int| 0 <= i < value.len() - 1 implies !(#[trigger] value[i] == '.' && value[i + 1]
            == '.') by {}
    }
}

/// Law: a manifest whose provided services are all symbols passes that
/// check; one with a provided service that is not a symbol is refused.
pub proof fn lemma_provides_checked(items: Seq<Seq<char>>)
    ensures
        (symbols_failure(items) is None) <==> forall|i: int| 0 <= i < items.len() ==> is_symbol(#[trigger] items[i]),
    decreases items.len(),
{
    if items.len() > 0 {
        let rest = items.drop_first();
        lemma_provides_checked(rest);
        if symbols_failure(items) is None {
            assert forall|i: int| 0 <= i < items.len() implies is_symbol(#[trigger] items[i]) by {
                if i > 0 {
                    assert(items[i] == rest[i - 1]);
                }
            }
        }
        if forall|i: int| 0 <= i < items.len() ==> is_symbol(#[trigger] items[i]) {
            assert(is_symbol(items[0]));
            assert forall|i: int| 0 <= i < rest.len() implies is_symbol(#[trigger] rest[i]) by {
                assert(rest[i] == items[i + 1]);
            }
        }
    }
}

/// Law: the kernel plugin's id is `kernel`.
pub proof fn lemma_kernel_id()
    ensures
        kernel_id() == seq!['k', 'e', 'r', 'n', 'e', 'l'],
{
    reveal_strlit("kernel");
    assert(kernel_id() =~= seq!['k', 'e', 'r', 'n', 'e', 'l']);
}

/// Law: unsetting a key right after setting it leaves the settings as
/// unsetting it alone would, and as they were if the key was not set.
pub proof fn lemma_set_then_unset(
    settings: Map<Seq<char>, serde_json::Value>,
    key: Seq<char>,
    value: serde_json::Value,
)
    ensures
        settings.insert(key, value).remove(key) == settings.remove(key),
        !settings.contains_key(key) ==> settings.insert(key, value).remove(key) == settings,
{
    assert(settings.insert(key, value).remove(key) =~= settings.remove(key));
    if !settings.contains_key(key) {
        assert(settings.remove(key) =~= settings);
    }
}

} // verus!
