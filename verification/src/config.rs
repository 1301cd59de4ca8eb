//! What a workspace configures.
use crate::json;
use crate::json::JsonFault;
use crate::key;
use crate::key::CanonicalKey;
use crate::names;
use crate::pattern;
use crate::pattern::DictionaryPattern;

use crate::search;
use crate::text;
use vstd::prelude::*;

verus! {

/// A function that opens a translation scope, such as `useScopedTranslation`.
#[derive(Clone, Debug)]
pub struct ScopedFunctionConfig {
    pub function_name: String,
    pub default_namespace: Option<String>,
    pub translation_methods: Vec<String>,
}

/// What a `ScopedFunctionConfig` holds.
pub struct ScopedFunctionView {
    pub function_name: Seq<char>,
    pub default_namespace: Option<Seq<char>>,
    pub translation_methods: Seq<Seq<char>>,
}

impl DeepView for ScopedFunctionConfig {
    type V = ScopedFunctionView;

    open spec fn deep_view(&self) -> ScopedFunctionView {
        ScopedFunctionView {
            function_name: self.function_name@,
            default_namespace: self.default_namespace.deep_view(),
            translation_methods: self.translation_methods.deep_view(),
        }
    }
}

/// A function that takes whole keys, such as `i18next.t`.
#[derive(Clone, Debug)]
pub struct FullKeyFunctionConfig {
    pub function_name: String,
    pub default_namespace: Option<String>,
}

/// What a `FullKeyFunctionConfig` holds.
pub struct FullKeyFunctionView {
    pub function_name: Seq<char>,
    pub default_namespace: Option<Seq<char>>,
}

impl DeepView for FullKeyFunctionConfig {
    type V = FullKeyFunctionView;

    open spec fn deep_view(&self) -> FullKeyFunctionView {
        FullKeyFunctionView {
            function_name: self.function_name@,
            default_namespace: self.default_namespace.deep_view(),
        }
    }
}

/// The first of `functions[from..]` that is called `name`.
pub open spec fn scoped_from(
    functions: Seq<ScopedFunctionView>,
    name: Seq<char>,
    from: int,
) -> Option<ScopedFunctionView>
    decreases functions.len() - from,
{
    if from >= functions.len() {
        None
    } else if functions[from].function_name == name {
        Some(functions[from])
    } else {
        scoped_from(functions, name, from + 1)
    }
}

/// The first of `functions[from..]` that is called `name`.
pub open spec fn full_key_from(
    functions: Seq<FullKeyFunctionView>,
    name: Seq<char>,
    from: int,
) -> Option<FullKeyFunctionView>
    decreases functions.len() - from,
{
    if from >= functions.len() {
        None
    } else if functions[from].function_name == name {
        Some(functions[from])
    } else {
        full_key_from(functions, name, from + 1)
    }
}

/// The scoped function that is called `name`.
pub fn find_scoped<'a>(functions: &'a [ScopedFunctionConfig], name: &str) -> (found: Option<
    &'a ScopedFunctionConfig,
>)
    ensures
        found.deep_view() == scoped_from(functions.deep_view(), name@, 0),
{
    let ghost all = functions.deep_view();
    let mut i: usize = 0;
    while i < functions.len()
        invariant
            i <= functions@.len(),
            all == functions.deep_view(),
            scoped_from(all, name@, 0) == scoped_from(all, name@, i as int),
        decreases functions@.len() - i,
    {
        assert(all[i as int] == functions@[i as int].deep_view());
        if text::same(functions[i].function_name.as_str(), name) {
            return Some(&functions[i]);
        }
        i += 1;
    }
    None
}

/// The full-key function that is called `name`.
pub fn find_full_key<'a>(functions: &'a [FullKeyFunctionConfig], name: &str) -> (found: Option<
    &'a FullKeyFunctionConfig,
>)
    ensures
        found.deep_view() == full_key_from(functions.deep_view(), name@, 0),
{
    let ghost all = functions.deep_view();
    let mut i: usize = 0;
    while i < functions.len()
        invariant
            i <= functions@.len(),
            all == functions.deep_view(),
            full_key_from(all, name@, 0) == full_key_from(all, name@, i as int),
        decreases functions@.len() - i,
    {
        assert(all[i as int] == functions@[i as int].deep_view());
        if text::same(functions[i].function_name.as_str(), name) {
            return Some(&functions[i]);
        }
        i += 1;
    }
    None
}

/// What a workspace configures.
#[derive(Clone, Debug)]
pub struct Config {
    pub schema: Option<String>,
    pub dictionaries: String,
    pub default_locale: String,
    pub default_namespace: Option<String>,
    pub key_separator: String,
    pub scoped_functions: Vec<ScopedFunctionConfig>,
    pub full_key_functions: Vec<FullKeyFunctionConfig>,
    pub translation_key_types: Vec<String>,
    pub translation_key_props: Vec<String>,
    pub ignored_scopes: Vec<String>,
}

/// What a `Config` holds.
pub struct ConfigView {
    pub schema: Option<Seq<char>>,
    pub dictionaries: Seq<char>,
    pub default_locale: Seq<char>,
    pub default_namespace: Option<Seq<char>>,
    pub key_separator: Seq<char>,
    pub scoped_functions: Seq<ScopedFunctionView>,
    pub full_key_functions: Seq<FullKeyFunctionView>,
    pub translation_key_types: Seq<Seq<char>>,
    pub translation_key_props: Seq<Seq<char>>,
    pub ignored_scopes: Seq<Seq<char>>,
}

impl DeepView for Config {
    type V = ConfigView;

    open spec fn deep_view(&self) -> ConfigView {
        ConfigView {
            schema: self.schema.deep_view(),
            dictionaries: self.dictionaries@,
            default_locale: self.default_locale@,
            default_namespace: self.default_namespace.deep_view(),
            key_separator: self.key_separator@,
            scoped_functions: self.scoped_functions.deep_view(),
            full_key_functions: self.full_key_functions.deep_view(),
            translation_key_types: self.translation_key_types.deep_view(),
            translation_key_props: self.translation_key_props.deep_view(),
            ignored_scopes: self.ignored_scopes.deep_view(),
        }
    }
}

/// What can be wrong with a configuration.
#[derive(Debug)]
#[allow(inconsistent_fields)]
pub enum ConfigError {
    /// The file cannot be read: its path and why.
    Read(String, ReadFault),
    /// The file is no JSON of the right shape.
    Json(JsonFault),
    LocaleToken,
    NamespaceToken,
    AbsoluteDictionaryPattern,
    Empty(&'static str),
    InvalidIgnoredScope(String),
    Glob(String),
    MissingDefaultLocale(String),
    MissingDefaultNamespace,
    MissingNamespaceDictionary { field: String, namespace: String, locale: String },
    DuplicateFunction { field: &'static str, name: String },
    InvalidDictionary {
        path: String,
        message: String,
        line: Option<usize>,
        column: Option<usize>,
    },
}

/// Why a file cannot be read.
#[derive(Debug)]
pub struct ReadFault {
    pub message: String,
    /// Whether there is no such file.
    pub missing: bool,
}

/// What a `ReadFault` holds.
pub struct ReadFaultView {
    pub message: Seq<char>,
    pub missing: bool,
}

impl DeepView for ReadFault {
    type V = ReadFaultView;

    open spec fn deep_view(&self) -> ReadFaultView {
        ReadFaultView { message: self.message@, missing: self.missing }
    }
}

/// What a `ConfigError` holds.
pub enum ConfigErrorView {
    Read(Seq<char>, ReadFaultView),
    Json(json::JsonFaultView),
    LocaleToken,
    NamespaceToken,
    AbsoluteDictionaryPattern,
    Empty(Seq<char>),
    InvalidIgnoredScope(Seq<char>),
    Glob(Seq<char>),
    MissingDefaultLocale(Seq<char>),
    MissingDefaultNamespace,
    MissingNamespaceDictionary { field: Seq<char>, namespace: Seq<char>, locale: Seq<char> },
    DuplicateFunction { field: Seq<char>, name: Seq<char> },
    InvalidDictionary {
        path: Seq<char>,
        message: Seq<char>,
        line: Option<usize>,
        column: Option<usize>,
    },
}

impl DeepView for ConfigError {
    type V = ConfigErrorView;

    open spec fn deep_view(&self) -> ConfigErrorView {
        match self {
            ConfigError::Read(path, fault) => ConfigErrorView::Read(path@, fault.deep_view()),
            ConfigError::Json(fault) => ConfigErrorView::Json(fault.deep_view()),
            ConfigError::LocaleToken => ConfigErrorView::LocaleToken,
            ConfigError::NamespaceToken => ConfigErrorView::NamespaceToken,
            ConfigError::AbsoluteDictionaryPattern => ConfigErrorView::AbsoluteDictionaryPattern,
            ConfigError::Empty(field) => ConfigErrorView::Empty(field@),
            ConfigError::InvalidIgnoredScope(scope) => ConfigErrorView::InvalidIgnoredScope(scope@),
            ConfigError::Glob(message) => ConfigErrorView::Glob(message@),
            ConfigError::MissingDefaultLocale(locale) => ConfigErrorView::MissingDefaultLocale(
                locale@,
            ),
            ConfigError::MissingDefaultNamespace => ConfigErrorView::MissingDefaultNamespace,
            ConfigError::MissingNamespaceDictionary { field, namespace, locale } =>
                ConfigErrorView::MissingNamespaceDictionary {
                field: field@,
                namespace: namespace@,
                locale: locale@,
            },
            ConfigError::DuplicateFunction { field, name } => ConfigErrorView::DuplicateFunction {
                field: field@,
                name: name@,
            },
            ConfigError::InvalidDictionary { path, message, line, column } =>
                ConfigErrorView::InvalidDictionary {
                path: path@,
                message: message@,
                line: *line,
                column: *column,
            },
        }
    }
}

/// The error of a result, where it is one.
pub open spec fn fault_of<T>(result: Result<T, ConfigError>) -> Option<ConfigErrorView> {
    match result {
        Ok(_) => None,
        Err(error) => Some(error.deep_view()),
    }
}

/// Whether `name` is words with single dots between them.
pub open spec fn is_dotted(name: Seq<char>) -> bool {
    key::is_key(name, "."@)
}

/// Whether a namespace is given but empty.
pub open spec fn is_blank(namespace: Option<Seq<char>>) -> bool {
    namespace matches Some(namespace) && namespace.len() == 0
}

/// Whether one of the first `i` scoped functions has the name of that at `i`.
pub open spec fn scoped_repeats(functions: Seq<ScopedFunctionView>, i: int) -> bool {
    exists|j: int|
        0 <= j < i && (#[trigger] functions[j]).function_name == functions[i].function_name
}

/// Whether one of the first `i` full-key functions has the name of that at `i`.
pub open spec fn full_key_repeats(functions: Seq<FullKeyFunctionView>, i: int) -> bool {
    exists|j: int|
        0 <= j < i && (#[trigger] functions[j]).function_name == functions[i].function_name
}

/// Whether all of `names` are dotted.
pub open spec fn all_dotted(names: Seq<Seq<char>>) -> bool {
    forall|i: int| 0 <= i < names.len() ==> is_dotted(#[trigger] names[i])
}

/// What is wrong with the scoped function at `i`.
pub open spec fn scoped_fault(functions: Seq<ScopedFunctionView>, i: int) -> Option<
    ConfigErrorView,
> {
    let function = functions[i];
    if !is_dotted(function.function_name) {
        Some(ConfigErrorView::Empty("scopedFunctions.functionName"@))
    } else if scoped_repeats(functions, i) {
        Some(
            ConfigErrorView::DuplicateFunction {
                field: "scopedFunctions"@,
                name: function.function_name,
            },
        )
    } else if function.translation_methods.len() == 0 || !all_dotted(function.translation_methods) {
        Some(ConfigErrorView::Empty("scopedFunctions.translationMethods"@))
    } else if is_blank(function.default_namespace) {
        Some(ConfigErrorView::Empty("scopedFunctions.defaultNamespace"@))
    } else {
        None
    }
}

/// The first fault among the scoped functions from `from` on.
pub open spec fn scoped_faults(functions: Seq<ScopedFunctionView>, from: int) -> Option<
    ConfigErrorView,
>
    decreases functions.len() - from,
{
    if from >= functions.len() {
        None
    } else {
        match scoped_fault(functions, from) {
            Some(fault) => Some(fault),
            None => scoped_faults(functions, from + 1),
        }
    }
}

/// What is wrong with the full-key function at `i`.
pub open spec fn full_key_fault(functions: Seq<FullKeyFunctionView>, i: int) -> Option<
    ConfigErrorView,
> {
    let function = functions[i];
    if !is_dotted(function.function_name) {
        Some(ConfigErrorView::Empty("fullKeyFunctions.functionName"@))
    } else if full_key_repeats(functions, i) {
        Some(
            ConfigErrorView::DuplicateFunction {
                field: "fullKeyFunctions"@,
                name: function.function_name,
            },
        )
    } else if is_blank(function.default_namespace) {
        Some(ConfigErrorView::Empty("fullKeyFunctions.defaultNamespace"@))
    } else {
        None
    }
}

/// The first fault among the full-key functions from `from` on.
pub open spec fn full_key_faults(functions: Seq<FullKeyFunctionView>, from: int) -> Option<
    ConfigErrorView,
>
    decreases functions.len() - from,
{
    if from >= functions.len() {
        None
    } else {
        match full_key_fault(functions, from) {
            Some(fault) => Some(fault),
            None => full_key_faults(functions, from + 1),
        }
    }
}

/// The first of `scopes[from..]` that is no key.
pub open spec fn invalid_scope(
    scopes: Seq<Seq<char>>,
    separator: Seq<char>,
    from: int,
) -> Option<Seq<char>>
    decreases scopes.len() - from,
{
    if from >= scopes.len() {
        None
    } else if !key::is_key(scopes[from], separator) {
        Some(scopes[from])
    } else {
        invalid_scope(scopes, separator, from + 1)
    }
}

/// The first thing that is wrong with a configuration.
pub open spec fn config_fault(config: ConfigView) -> Option<ConfigErrorView> {
    if search::count(config.dictionaries, "{locale}"@) != 1 {
        Some(ConfigErrorView::LocaleToken)
    } else if search::count(config.dictionaries, "{namespace}"@) > 1 {
        Some(ConfigErrorView::NamespaceToken)
    } else if config.default_locale.len() == 0 {
        Some(ConfigErrorView::Empty("defaultLocale"@))
    } else if is_blank(config.default_namespace) {
        Some(ConfigErrorView::Empty("defaultNamespace"@))
    } else if config.key_separator.len() == 0 {
        Some(ConfigErrorView::Empty("keySeparator"@))
    } else if config.scoped_functions.len() == 0 {
        Some(ConfigErrorView::Empty("scopedFunctions"@))
    } else if config.full_key_functions.len() == 0 {
        Some(ConfigErrorView::Empty("fullKeyFunctions"@))
    } else if scoped_faults(config.scoped_functions, 0) is Some {
        scoped_faults(config.scoped_functions, 0)
    } else if full_key_faults(config.full_key_functions, 0) is Some {
        full_key_faults(config.full_key_functions, 0)
    } else if !all_dotted(config.translation_key_types) {
        Some(ConfigErrorView::Empty("translationKeyTypes"@))
    } else if !all_dotted(config.translation_key_props) {
        Some(ConfigErrorView::Empty("translationKeyProps"@))
    } else {
        match invalid_scope(config.ignored_scopes, config.key_separator, 0) {
            Some(scope) => Some(ConfigErrorView::InvalidIgnoredScope(scope)),
            None => pattern::pattern_fault(config.dictionaries),
        }
    }
}

impl Config {
    /// Whether the configuration can be used.
    pub fn validate(&self) -> (result: Result<(), ConfigError>)
        ensures
            fault_of(result) == config_fault(self.deep_view()),
    {
        if let Some(fault) = pattern::token_fault(self.dictionaries.as_str()) {
            return Err(fault);
        }
        if self.default_locale.as_str().is_empty() {
            return Err(ConfigError::Empty("defaultLocale"));
        }
        if blank(&self.default_namespace) {
            return Err(ConfigError::Empty("defaultNamespace"));
        }
        if self.key_separator.as_str().is_empty() {
            return Err(ConfigError::Empty("keySeparator"));
        }
        assert(self.scoped_functions.deep_view().len() == self.scoped_functions@.len());
        if self.scoped_functions.len() == 0 {
            return Err(ConfigError::Empty("scopedFunctions"));
        }
        assert(self.full_key_functions.deep_view().len() == self.full_key_functions@.len());
        if self.full_key_functions.len() == 0 {
            return Err(ConfigError::Empty("fullKeyFunctions"));
        }
        if let Some(fault) = check_scoped(&self.scoped_functions) {
            return Err(fault);
        }
        if let Some(fault) = check_full_key(&self.full_key_functions) {
            return Err(fault);
        }
        if !dotted(&self.translation_key_types) {
            return Err(ConfigError::Empty("translationKeyTypes"));
        }
        if !dotted(&self.translation_key_props) {
            return Err(ConfigError::Empty("translationKeyProps"));
        }
        if let Some(scope) = find_invalid_scope(
            &self.ignored_scopes,
            self.key_separator.as_str(),
        ) {
            return Err(ConfigError::InvalidIgnoredScope(scope));
        }
        match DictionaryPattern::new(self.dictionaries.as_str()) {
            Ok(_) => Ok(()),
            Err(fault) => Err(fault),
        }
    }

    /// The pattern of the dictionaries.
    pub fn dictionary_pattern(&self) -> (made: Result<DictionaryPattern, ConfigError>)
        ensures
            fault_of(made) == pattern::pattern_fault(self.dictionaries@),
            made matches Ok(made) ==> made@ == pattern::normal_pattern(
                pattern::with_slashes(self.dictionaries@),
            ),
    {
        DictionaryPattern::new(self.dictionaries.as_str())
    }

    /// The ignored scopes, each once.
    pub fn ignored_scope_set(&self) -> (scopes: Vec<String>)
        ensures
            scopes.deep_view() == text::distinct(
                self.deep_view().ignored_scopes,
                self.deep_view().ignored_scopes.len() as int,
            ),
    {
        assert(self.ignored_scopes.deep_view().len() == self.ignored_scopes@.len());
        text::keep_distinct(&self.ignored_scopes)
    }

    /// The scoped function that is called `name`.
    pub fn scoped_function(&self, name: &str) -> (found: Option<&ScopedFunctionConfig>)
        ensures
            found.deep_view() == scoped_from(self.deep_view().scoped_functions, name@, 0),
    {
        find_scoped(&self.scoped_functions, name)
    }

    /// The full-key function that is called `name`.
    pub fn full_key_function(&self, name: &str) -> (found: Option<&FullKeyFunctionConfig>)
        ensures
            found.deep_view() == full_key_from(self.deep_view().full_key_functions, name@, 0),
    {
        find_full_key(&self.full_key_functions, name)
    }
}

/// Whether a namespace is given but empty.
fn blank(namespace: &Option<String>) -> (found: bool)
    ensures
        found == is_blank(namespace.deep_view()),
{
    match namespace {
        Some(namespace) => namespace.as_str().is_empty(),
        None => false,
    }
}

/// Whether all of `names` are dotted.
fn dotted(names: &[String]) -> (found: bool)
    ensures
        found == all_dotted(names.deep_view()),
{
    let ghost all = names.deep_view();
    let mut n: usize = 0;
    while n < names.len()
        invariant
            n <= names@.len(),
            all == names.deep_view(),
            forall|i: int| 0 <= i < n ==> is_dotted(#[trigger] all[i]),
        decreases names@.len() - n,
    {
        assert(all[n as int] == names@[n as int]@);
        if CanonicalKey::new(names[n].as_str(), ".").is_none() {
            assert(!is_dotted(all[n as int]));
            return false;
        }
        n += 1;
    }
    true
}

/// The first scope that is no key.
fn find_invalid_scope(scopes: &[String], separator: &str) -> (found: Option<String>)
    ensures
        found.deep_view() == invalid_scope(scopes.deep_view(), separator@, 0),
{
    let ghost all = scopes.deep_view();
    let mut n: usize = 0;
    while n < scopes.len()
        invariant
            n <= scopes@.len(),
            all == scopes.deep_view(),
            invalid_scope(all, separator@, 0) == invalid_scope(all, separator@, n as int),
        decreases scopes@.len() - n,
    {
        assert(all[n as int] == scopes@[n as int]@);
        if CanonicalKey::new(scopes[n].as_str(), separator).is_none() {
            return Some(scopes[n].clone());
        }
        n += 1;
    }
    None
}

/// The first fault among the scoped functions.
fn check_scoped(functions: &[ScopedFunctionConfig]) -> (fault: Option<ConfigError>)
    ensures
        fault.deep_view() == scoped_faults(functions.deep_view(), 0),
{
    let ghost all = functions.deep_view();
    let mut n: usize = 0;
    while n < functions.len()
        invariant
            n <= functions@.len(),
            all == functions.deep_view(),
            scoped_faults(all, 0) == scoped_faults(all, n as int),
        decreases functions@.len() - n,
    {
        let function = &functions[n];
        assert(all[n as int] == function.deep_view());
        if CanonicalKey::new(function.function_name.as_str(), ".").is_none() {
            return Some(ConfigError::Empty("scopedFunctions.functionName"));
        }
        let mut j: usize = 0;
        while j < n
            invariant
                j <= n < functions@.len(),
                all == functions.deep_view(),
                function == functions@[n as int],
                all[n as int] == function.deep_view(),
                is_dotted(function.function_name@),
                scoped_faults(all, 0) == scoped_faults(all, n as int),
                forall|k: int|
                    0 <= k < j ==> (#[trigger] all[k]).function_name != function.function_name@,
            decreases n - j,
        {
            assert(all[j as int] == functions@[j as int].deep_view());
            if text::same(
                functions[j].function_name.as_str(),
                function.function_name.as_str(),
            ) {
                assert(scoped_repeats(all, n as int));
                return Some(
                    ConfigError::DuplicateFunction {
                        field: "scopedFunctions",
                        name: function.function_name.clone(),
                    },
                );
            }
            j += 1;
        }
        assert(!scoped_repeats(all, n as int));
        assert(function.translation_methods.deep_view().len()
            == function.translation_methods@.len());
        if function.translation_methods.len() == 0 || !dotted(&function.translation_methods) {
            return Some(ConfigError::Empty("scopedFunctions.translationMethods"));
        }
        if blank(&function.default_namespace) {
            return Some(ConfigError::Empty("scopedFunctions.defaultNamespace"));
        }
        n += 1;
    }
    None
}

/// The first fault among the full-key functions.
fn check_full_key(functions: &[FullKeyFunctionConfig]) -> (fault: Option<ConfigError>)
    ensures
        fault.deep_view() == full_key_faults(functions.deep_view(), 0),
{
    let ghost all = functions.deep_view();
    let mut n: usize = 0;
    while n < functions.len()
        invariant
            n <= functions@.len(),
            all == functions.deep_view(),
            full_key_faults(all, 0) == full_key_faults(all, n as int),
        decreases functions@.len() - n,
    {
        let function = &functions[n];
        assert(all[n as int] == function.deep_view());
        if CanonicalKey::new(function.function_name.as_str(), ".").is_none() {
            return Some(ConfigError::Empty("fullKeyFunctions.functionName"));
        }
        let mut j: usize = 0;
        while j < n
            invariant
                j <= n < functions@.len(),
                all == functions.deep_view(),
                function == functions@[n as int],
                all[n as int] == function.deep_view(),
                is_dotted(function.function_name@),
                full_key_faults(all, 0) == full_key_faults(all, n as int),
                forall|k: int|
                    0 <= k < j ==> (#[trigger] all[k]).function_name != function.function_name@,
            decreases n - j,
        {
            assert(all[j as int] == functions@[j as int].deep_view());
            if text::same(
                functions[j].function_name.as_str(),
                function.function_name.as_str(),
            ) {
                assert(full_key_repeats(all, n as int));
                return Some(
                    ConfigError::DuplicateFunction {
                        field: "fullKeyFunctions",
                        name: function.function_name.clone(),
                    },
                );
            }
            j += 1;
        }
        assert(!full_key_repeats(all, n as int));
        if blank(&function.default_namespace) {
            return Some(ConfigError::Empty("fullKeyFunctions.defaultNamespace"));
        }
        n += 1;
    }
    None
}

/// The message of a configuration error.
pub open spec fn error_text(error: ConfigErrorView) -> Seq<char> {
    match error {
        ConfigErrorView::Read(path, fault) => "failed to read "@ + names::shown(path) + ": "@
            + fault.message,
        ConfigErrorView::Json(fault) => "invalid configuration JSON: "@ + fault.message,
        ConfigErrorView::LocaleToken =>
            "dictionary pattern must contain exactly one {locale} token"@,
        ConfigErrorView::NamespaceToken =>
            "dictionary pattern must contain at most one {namespace} token"@,
        ConfigErrorView::AbsoluteDictionaryPattern =>
            "dictionary pattern must be relative to the workspace root"@,
        ConfigErrorView::Empty(field) => field + " must not be empty"@,
        ConfigErrorView::InvalidIgnoredScope(scope) => "ignored scope "@ + text::quoted(scope)
            + " is not a valid translation key"@,
        ConfigErrorView::Glob(message) => "invalid dictionary glob: "@ + message,
        ConfigErrorView::MissingDefaultLocale(locale) => "default locale "@ + text::quoted(locale)
            + " has no matching dictionary"@,
        ConfigErrorView::MissingDefaultNamespace =>
            "multiple namespaces were found; set defaultNamespace"@,
        ConfigErrorView::MissingNamespaceDictionary { field, namespace, locale } => field
            + " namespace "@ + text::quoted(namespace) + " has no dictionary for locale "@
            + text::quoted(locale),
        ConfigErrorView::DuplicateFunction { field, name } => "duplicate function name "@
            + text::quoted(name) + " in "@ + field,
        ConfigErrorView::InvalidDictionary { path, message, line: _, column: _ } => "dictionary "@
            + names::shown(path) + " is invalid: "@ + message,
    }
}

impl ConfigError {
    /// The message for a reader.
    pub fn message(&self) -> (text: String)
        ensures
            text@ == error_text(self.deep_view()),
    {
        match self {
            ConfigError::Read(path, fault) => {
                let mut text = "failed to read ".to_owned();
                text.append(names::show(path.as_str()).as_str());
                text.append(": ");
                text.append(fault.message.as_str());
                text
            },
            ConfigError::Json(fault) => {
                let mut text = "invalid configuration JSON: ".to_owned();
                text.append(fault.message.as_str());
                text
            },
            ConfigError::LocaleToken =>
                "dictionary pattern must contain exactly one {locale} token".to_owned(),
            ConfigError::NamespaceToken =>
                "dictionary pattern must contain at most one {namespace} token".to_owned(),
            ConfigError::AbsoluteDictionaryPattern =>
                "dictionary pattern must be relative to the workspace root".to_owned(),
            ConfigError::Empty(field) => {
                let mut text = (*field).to_owned();
                text.append(" must not be empty");
                text
            },
            ConfigError::InvalidIgnoredScope(scope) => {
                let mut text = "ignored scope ".to_owned();
                text.append(text::quote(scope.as_str()).as_str());
                text.append(" is not a valid translation key");
                text
            },
            ConfigError::Glob(message) => {
                let mut text = "invalid dictionary glob: ".to_owned();
                text.append(message.as_str());
                text
            },
            ConfigError::MissingDefaultLocale(locale) => {
                let mut text = "default locale ".to_owned();
                text.append(text::quote(locale.as_str()).as_str());
                text.append(" has no matching dictionary");
                text
            },
            ConfigError::MissingDefaultNamespace =>
                "multiple namespaces were found; set defaultNamespace".to_owned(),
            ConfigError::MissingNamespaceDictionary { field, namespace, locale } => {
                let mut text = field.clone();
                text.append(" namespace ");
                text.append(text::quote(namespace.as_str()).as_str());
                text.append(" has no dictionary for locale ");
                text.append(text::quote(locale.as_str()).as_str());
                text
            },
            ConfigError::DuplicateFunction { field, name } => {
                let mut text = "duplicate function name ".to_owned();
                text.append(text::quote(name.as_str()).as_str());
                text.append(" in ");
                text.append(*field);
                text
            },
            ConfigError::InvalidDictionary { path, message, line: _, column: _ } => {
                let mut text = "dictionary ".to_owned();
                text.append(names::show(path.as_str()).as_str());
                text.append(" is invalid: ");
                text.append(message.as_str());
                text
            },
        }
    }
}

} // verus!
