//! What a workspace tells a user who has to put something right.
use crate::config;
use crate::config::ConfigError;
use crate::json;
use crate::json::{JsonFault, JsonFaultKind};
use crate::names;
use crate::search;
use crate::text;
use crate::workspace;
use crate::workspace::DictionaryIssue;
use vstd::prelude::*;

verus! {

/// Something that a user has to put right, or that is right again.
#[derive(Debug)]
pub struct WorkspaceIssue {
    pub version: u8,
    pub active: bool,
    pub code: &'static str,
    pub summary: String,
    pub remediation: String,
    pub path: Option<String>,
    pub line: Option<usize>,
    pub column: Option<usize>,
}

/// What a `WorkspaceIssue` holds.
pub struct WorkspaceIssueView {
    pub version: u8,
    pub active: bool,
    pub code: Seq<char>,
    pub summary: Seq<char>,
    pub remediation: Seq<char>,
    pub path: Option<Seq<char>>,
    pub line: Option<usize>,
    pub column: Option<usize>,
}

impl DeepView for WorkspaceIssue {
    type V = WorkspaceIssueView;

    open spec fn deep_view(&self) -> WorkspaceIssueView {
        WorkspaceIssueView {
            version: self.version,
            active: self.active,
            code: self.code@,
            summary: self.summary@,
            remediation: self.remediation@,
            path: self.path.deep_view(),
            line: self.line,
            column: self.column,
        }
    }
}

/// What stands before the last ` at line ` of a message.
pub open spec fn without_place(message: Seq<char>) -> Seq<char> {
    match search::rfind_from(message, " at line "@, message.len() as int) {
        Some(i) => message.take(i),
        None => message,
    }
}

/// What stands between a prefix and the next backtick of a message.
pub open spec fn quoted_field(message: Seq<char>, prefix: Seq<char>) -> Option<Seq<char>> {
    if search::starts_with(message, prefix) {
        let rest = message.skip(prefix.len() as int);
        match search::find_from(rest, seq!['`'], 0) {
            Some(i) => Some(rest.take(i)),
            None => None,
        }
    } else {
        None
    }
}

/// The shape that a value should have, where a message says which.
pub open spec fn expected_shape(message: Seq<char>) -> Option<Seq<char>> {
    if search::contains(message, "expected struct ScopedFunctionConfig"@) {
        Some(
            "{ functionName: string; defaultNamespace?: string; translationMethods: string[] }"@,
        )
    } else if search::contains(message, "expected struct FullKeyFunctionConfig"@) {
        Some("{ functionName: string; defaultNamespace?: string }"@)
    } else {
        None
    }
}

/// The summary of a fault in the shape of a configuration.
pub open spec fn shape_summary(message: Seq<char>) -> Seq<char> {
    match expected_shape(message) {
        Some(shape) => "Invalid LocaleBreeze configuration value. Expected "@ + shape,
        None => match quoted_field(message, "unknown field `"@) {
            Some(field) => "Unknown LocaleBreeze configuration field `"@ + field + "`"@,
            None => match quoted_field(message, "missing field `"@) {
                Some(field) => "Missing required LocaleBreeze configuration field `"@ + field
                    + "`"@,
                None => match quoted_field(message, "duplicate field `"@) {
                    Some(field) => "Duplicate LocaleBreeze configuration field `"@ + field + "`"@,
                    None => "Invalid LocaleBreeze configuration: "@ + message,
                },
            },
        },
    }
}

/// The code, the summary and the remediation of an issue.
pub struct Advice {
    pub code: &'static str,
    pub summary: String,
    pub remediation: String,
}

/// What an `Advice` holds.
pub struct AdviceView {
    pub code: Seq<char>,
    pub summary: Seq<char>,
    pub remediation: Seq<char>,
}

impl DeepView for Advice {
    type V = AdviceView;

    open spec fn deep_view(&self) -> AdviceView {
        AdviceView {
            code: self.code@,
            summary: self.summary@,
            remediation: self.remediation@,
        }
    }
}

/// What to do about a JSON fault of a configuration.
pub open spec fn json_advice(fault: json::JsonFaultView) -> AdviceView {
    if fault.kind == JsonFaultKind::Syntax || fault.kind == JsonFaultKind::Eof {
        AdviceView {
            code: "config_json"@,
            summary: "LocaleBreeze configuration contains invalid JSON"@,
            remediation:
                "Correct the JSON syntax, then save the file. LocaleBreeze will retry automatically."@,
        }
    } else {
        AdviceView {
            code: "config_schema"@,
            summary: shape_summary(without_place(fault.message)),
            remediation:
                "Correct the configuration value or field, then save the file. LocaleBreeze will retry automatically."@,
        }
    }
}

/// What to do about a configuration error.
pub open spec fn advice_for(error: config::ConfigErrorView) -> AdviceView {
    match error {
        config::ConfigErrorView::Read(_, fault) => if fault.missing {
            AdviceView {
                code: "config_missing"@,
                summary: "LocaleBreeze configuration was not found"@,
                remediation:
                    "Create the configuration file or select the correct file in LocaleBreeze settings."@,
            }
        } else {
            AdviceView {
                code: "config_unreadable"@,
                summary: "LocaleBreeze cannot read its configuration"@,
                remediation:
                    "Check that the file exists and that WebStorm has permission to read it."@,
            }
        },
        config::ConfigErrorView::Json(fault) => json_advice(fault),
        config::ConfigErrorView::LocaleToken => AdviceView {
            code: "config_dictionary_pattern"@,
            summary: "The dictionary pattern is invalid"@,
            remediation:
                "Set `dictionaries` to a relative pattern containing exactly one `{locale}` token, for example `public/dictionaries/translation.{locale}.json`."@,
        },
        config::ConfigErrorView::NamespaceToken => AdviceView {
            code: "config_dictionary_pattern"@,
            summary: "The dictionary namespace pattern is invalid"@,
            remediation: "Use at most one `{namespace}` token in `dictionaries`."@,
        },
        config::ConfigErrorView::AbsoluteDictionaryPattern => AdviceView {
            code: "config_dictionary_pattern"@,
            summary: "The dictionary pattern must be relative"@,
            remediation:
                "Use a path relative to the workspace root; parent-directory (`..`) segments are supported."@,
        },
        config::ConfigErrorView::Empty(field) => AdviceView {
            code: "config_value"@,
            summary: "LocaleBreeze configuration field `"@ + field + "` is empty"@,
            remediation:
                "Provide at least one valid value for this field, then save the configuration."@,
        },
        config::ConfigErrorView::InvalidIgnoredScope(scope) => AdviceView {
            code: "config_value"@,
            summary: "Ignored scope `"@ + scope + "` is not a valid translation key"@,
            remediation: "Use the configured key separator and remove empty key segments."@,
        },
        config::ConfigErrorView::Glob(_) => AdviceView {
            code: "config_dictionary_pattern"@,
            summary: "The dictionary pattern is not a valid file pattern"@,
            remediation: "Correct the `dictionaries` pattern, then save the configuration."@,
        },
        config::ConfigErrorView::MissingDefaultLocale(locale) => AdviceView {
            code: "dictionary_default_missing"@,
            summary: "No dictionary was found for the default locale `"@ + locale + "`"@,
            remediation:
                "Check `defaultLocale`, the `dictionaries` pattern, and that the matching dictionary file exists and contains valid JSON."@,
        },
        config::ConfigErrorView::MissingDefaultNamespace => AdviceView {
            code: "dictionary_default_namespace_missing"@,
            summary: "LocaleBreeze cannot determine the default namespace"@,
            remediation:
                "Set `defaultNamespace` when the dictionary pattern matches more than one namespace."@,
        },
        config::ConfigErrorView::MissingNamespaceDictionary { field, namespace, locale } =>
            AdviceView {
            code: "dictionary_namespace_missing"@,
            summary: "Namespace `"@ + namespace + "` configured by `"@ + field
                + "` has no dictionary for locale `"@ + locale + "`"@,
            remediation:
                "Correct the namespace override or add its default-locale dictionary file."@,
        },
        config::ConfigErrorView::DuplicateFunction { field, name } => AdviceView {
            code: "config_value"@,
            summary: "Function `"@ + name + "` is configured more than once in `"@ + field + "`"@,
            remediation: "Keep one configuration entry for each function name."@,
        },
        config::ConfigErrorView::InvalidDictionary { path: _, message, line: _, column: _ } =>
            AdviceView {
            code: "dictionary_invalid"@,
            summary: "LocaleBreeze could not read a dictionary"@,
            remediation: message
                + ". Correct the dictionary and save it; LocaleBreeze will retry automatically."@,
        },
    }
}

/// The issue that a configuration error is, for the configuration at `config_path`.
pub open spec fn config_issue(
    error: config::ConfigErrorView,
    config_path: Seq<char>,
) -> WorkspaceIssueView {
    let advice = advice_for(error);
    let (path, line, column) = match error {
        config::ConfigErrorView::Json(fault) => (config_path, Some(fault.line), Some(fault.column)),
        config::ConfigErrorView::InvalidDictionary { path, message: _, line, column } => (
            path,
            line,
            column,
        ),
        _ => (config_path, None, None),
    };
    WorkspaceIssueView {
        version: 1,
        active: true,
        code: advice.code,
        summary: advice.summary,
        remediation: advice.remediation,
        path: Some(names::shown(path)),
        line,
        column,
    }
}

/// The issue that a dictionary is.
pub open spec fn dictionary_issue(issue: workspace::IssueView) -> WorkspaceIssueView {
    WorkspaceIssueView {
        version: 1,
        active: true,
        code: "dictionary_invalid"@,
        summary: "LocaleBreeze could not read a dictionary"@,
        remediation: issue.message
            + ". Correct the dictionary and save it; LocaleBreeze will refresh automatically."@,
        path: Some(names::shown(issue.path)),
        line: issue.line,
        column: issue.column,
    }
}

/// That nothing is to be put right under a code.
pub open spec fn cleared(code: Seq<char>, path: Option<Seq<char>>) -> WorkspaceIssueView {
    WorkspaceIssueView {
        version: 1,
        active: false,
        code,
        summary: Seq::empty(),
        remediation: Seq::empty(),
        path,
        line: None,
        column: None,
    }
}

/// What stands before the last ` at line ` of a message.
fn cut_place(message: &str) -> (front: String)
    ensures
        front@ == without_place(message@),
{
    let chars = text::chars_of(message);
    let total: usize = chars.len();
    match search::rfind(&chars, &text::chars_of(" at line ")) {
        Some(i) => {
            proof {
                search::lemma_rfind(message@, " at line "@, message@.len() as int);
            }
            let front = text::string_of(&chars, 0, i);
            assert(front@ =~= message@.take(i as int));
            front
        },
        None => message.to_owned(),
    }
}

/// What stands between a prefix and the next backtick of a message.
pub fn quoted_serde_field(message: &str, prefix: &str) -> (field: Option<String>)
    ensures
        field.deep_view() == quoted_field(message@, prefix@),
{
    let chars = text::chars_of(message);
    let lead = text::chars_of(prefix);
    if !search::is_at(&chars, &lead, 0) {
        return None;
    }
    let total: usize = chars.len();
    let rest = text::chars_of(text::string_of(&chars, lead.len(), total).as_str());
    assert(rest@ =~= message@.skip(prefix@.len() as int));
    let tick: [char; 1] = ['`'];
    assert(tick@ =~= seq!['`']);
    match search::find(&rest, &tick, 0) {
        Some(i) => {
            proof {
                search::lemma_find(rest@, seq!['`'], 0);
            }
            let field = text::string_of(&rest, 0, i);
            assert(field@ =~= rest@.take(i as int));
            Some(field)
        },
        None => None,
    }
}

/// The shape that a value should have, where a message says which.
pub fn typescript_config_expectation(message: &str) -> (shape: Option<&'static str>)
    ensures
        shape.deep_view() == expected_shape(message@),
{
    if search::holds(message, "expected struct ScopedFunctionConfig") {
        Some("{ functionName: string; defaultNamespace?: string; translationMethods: string[] }")
    } else if search::holds(message, "expected struct FullKeyFunctionConfig") {
        Some("{ functionName: string; defaultNamespace?: string }")
    } else {
        None
    }
}

/// Three texts in one.
fn concat(first: &str, second: &str, third: &str) -> (text: String)
    ensures
        text@ == first@ + second@ + third@,
{
    let mut text = first.to_owned();
    text.append(second);
    text.append(third);
    text
}

/// Two texts in one.
fn pair(first: &str, second: &str) -> (text: String)
    ensures
        text@ == first@ + second@,
{
    let mut text = first.to_owned();
    text.append(second);
    text
}

/// The summary of a fault in the shape of a configuration.
fn summarize_shape(message: &str) -> (summary: String)
    ensures
        summary@ == shape_summary(message@),
{
    if let Some(shape) = typescript_config_expectation(message) {
        pair("Invalid LocaleBreeze configuration value. Expected ", shape)
    } else if let Some(field) = quoted_serde_field(message, "unknown field `") {
        concat("Unknown LocaleBreeze configuration field `", field.as_str(), "`")
    } else if let Some(field) = quoted_serde_field(message, "missing field `") {
        concat("Missing required LocaleBreeze configuration field `", field.as_str(), "`")
    } else if let Some(field) = quoted_serde_field(message, "duplicate field `") {
        concat("Duplicate LocaleBreeze configuration field `", field.as_str(), "`")
    } else {
        pair("Invalid LocaleBreeze configuration: ", message)
    }
}

/// What to do about a JSON fault of a configuration.
pub fn json_config_error_details(fault: &JsonFault) -> (advice: Advice)
    ensures
        advice.deep_view() == json_advice(fault.deep_view()),
{
    if fault.kind == JsonFaultKind::Syntax || fault.kind == JsonFaultKind::Eof {
        return Advice {
            code: "config_json",
            summary: "LocaleBreeze configuration contains invalid JSON".to_owned(),
            remediation:
                "Correct the JSON syntax, then save the file. LocaleBreeze will retry automatically.".to_owned(),
        };
    }
    let message = cut_place(fault.message.as_str());
    Advice {
        code: "config_schema",
        summary: summarize_shape(message.as_str()),
        remediation:
            "Correct the configuration value or field, then save the file. LocaleBreeze will retry automatically.".to_owned(),
    }
}

/// An advice in plain words.
fn advise(code: &'static str, summary: &str, remediation: &str) -> (advice: Advice)
    ensures
        advice.deep_view() == (AdviceView {
            code: code@,
            summary: summary@,
            remediation: remediation@,
        }),
{
    Advice { code, summary: summary.to_owned(), remediation: remediation.to_owned() }
}

/// What to do about a configuration error.
fn find_advice(error: &ConfigError) -> (advice: Advice)
    ensures
        advice.deep_view() == advice_for(error.deep_view()),
{
    match error {
        ConfigError::Read(_, fault) => if fault.missing {
            advise(
                "config_missing",
                "LocaleBreeze configuration was not found",
                "Create the configuration file or select the correct file in LocaleBreeze settings.",
            )
        } else {
            advise(
                "config_unreadable",
                "LocaleBreeze cannot read its configuration",
                "Check that the file exists and that WebStorm has permission to read it.",
            )
        },
        ConfigError::Json(fault) => json_config_error_details(fault),
        ConfigError::LocaleToken => advise(
            "config_dictionary_pattern",
            "The dictionary pattern is invalid",
            "Set `dictionaries` to a relative pattern containing exactly one `{locale}` token, for example `public/dictionaries/translation.{locale}.json`.",
        ),
        ConfigError::NamespaceToken => advise(
            "config_dictionary_pattern",
            "The dictionary namespace pattern is invalid",
            "Use at most one `{namespace}` token in `dictionaries`.",
        ),
        ConfigError::AbsoluteDictionaryPattern => advise(
            "config_dictionary_pattern",
            "The dictionary pattern must be relative",
            "Use a path relative to the workspace root; parent-directory (`..`) segments are supported.",
        ),
        ConfigError::Empty(field) => advise(
            "config_value",
            concat("LocaleBreeze configuration field `", *field, "` is empty").as_str(),
            "Provide at least one valid value for this field, then save the configuration.",
        ),
        ConfigError::InvalidIgnoredScope(scope) => advise(
            "config_value",
            concat(
                "Ignored scope `",
                scope.as_str(),
                "` is not a valid translation key",
            ).as_str(),
            "Use the configured key separator and remove empty key segments.",
        ),
        ConfigError::Glob(_) => advise(
            "config_dictionary_pattern",
            "The dictionary pattern is not a valid file pattern",
            "Correct the `dictionaries` pattern, then save the configuration.",
        ),
        ConfigError::MissingDefaultLocale(locale) => advise(
            "dictionary_default_missing",
            concat(
                "No dictionary was found for the default locale `",
                locale.as_str(),
                "`",
            ).as_str(),
            "Check `defaultLocale`, the `dictionaries` pattern, and that the matching dictionary file exists and contains valid JSON.",
        ),
        ConfigError::MissingDefaultNamespace => advise(
            "dictionary_default_namespace_missing",
            "LocaleBreeze cannot determine the default namespace",
            "Set `defaultNamespace` when the dictionary pattern matches more than one namespace.",
        ),
        ConfigError::MissingNamespaceDictionary { field, namespace, locale } => {
            let mut summary = concat("Namespace `", namespace.as_str(), "` configured by `");
            summary.append(field.as_str());
            summary.append("` has no dictionary for locale `");
            summary.append(locale.as_str());
            summary.append("`");
            advise(
                "dictionary_namespace_missing",
                summary.as_str(),
                "Correct the namespace override or add its default-locale dictionary file.",
            )
        },
        ConfigError::DuplicateFunction { field, name } => {
            let mut summary = concat(
                "Function `",
                name.as_str(),
                "` is configured more than once in `",
            );
            summary.append(*field);
            summary.append("`");
            advise(
                "config_value",
                summary.as_str(),
                "Keep one configuration entry for each function name.",
            )
        },
        ConfigError::InvalidDictionary { path: _, message, line: _, column: _ } => advise(
            "dictionary_invalid",
            "LocaleBreeze could not read a dictionary",
            pair(
                message.as_str(),
                ". Correct the dictionary and save it; LocaleBreeze will retry automatically.",
            ).as_str(),
        ),
    }
}

impl WorkspaceIssue {
    /// That all is right.
    pub fn clear() -> (issue: Self)
        ensures
            issue.deep_view() == cleared("clear"@, None),
    {
        let issue = WorkspaceIssue {
            version: 1,
            active: false,
            code: "clear",
            summary: String::new(),
            remediation: String::new(),
            path: None,
            line: None,
            column: None,
        };
        assert(issue.summary@ =~= Seq::<char>::empty());
        assert(issue.remediation@ =~= Seq::<char>::empty());
        issue
    }

    /// That the dictionary at a path is right.
    pub fn clear_dictionary(path: &str) -> (issue: Self)
        ensures
            issue.deep_view() == cleared("dictionary_invalid"@, Some(names::shown(path@))),
    {
        let mut issue = WorkspaceIssue::clear();
        issue.code = "dictionary_invalid";
        issue.path = Some(names::show(path));
        issue
    }

    /// What is wrong with the configuration at a path.
    pub fn from_config_error(error: &ConfigError, config_path: &str) -> (issue: Self)
        ensures
            issue.deep_view() == config_issue(error.deep_view(), config_path@),
    {
        let advice = find_advice(error);
        let (path, line, column) = match error {
            ConfigError::Json(fault) => (config_path, Some(fault.line), Some(fault.column)),
            ConfigError::InvalidDictionary { path, message: _, line, column } => (
                path.as_str(),
                *line,
                *column,
            ),
            _ => (config_path, None, None),
        };
        WorkspaceIssue {
            version: 1,
            active: true,
            code: advice.code,
            summary: advice.summary,
            remediation: advice.remediation,
            path: Some(names::show(path)),
            line,
            column,
        }
    }

    /// What is wrong with a dictionary.
    pub fn from_dictionary_issue(issue: &DictionaryIssue) -> (result: Self)
        ensures
            result.deep_view() == dictionary_issue(issue.deep_view()),
    {
        WorkspaceIssue {
            version: 1,
            active: true,
            code: "dictionary_invalid",
            summary: "LocaleBreeze could not read a dictionary".to_owned(),
            remediation: pair(
                issue.message.as_str(),
                ". Correct the dictionary and save it; LocaleBreeze will refresh automatically.",
            ),
            path: Some(names::show(issue.path.as_str())),
            line: issue.line,
            column: issue.column,
        }
    }

    /// That the files of the workspace at `root` cannot be watched.
    pub fn watcher_failed(root: &str) -> (issue: Self)
        ensures
            issue.deep_view() == (WorkspaceIssueView {
                version: 1,
                active: true,
                code: "watcher_failed"@,
                summary: "LocaleBreeze cannot watch workspace files"@,
                remediation:
                    "Automatic refresh is unavailable. Check file permissions, then restart the language server from LocaleBreeze settings."@,
                path: Some(names::shown(root@)),
                line: None,
                column: None,
            }),
    {
        WorkspaceIssue {
            version: 1,
            active: true,
            code: "watcher_failed",
            summary: "LocaleBreeze cannot watch workspace files".to_owned(),
            remediation:
                "Automatic refresh is unavailable. Check file permissions, then restart the language server from LocaleBreeze settings.".to_owned(),
            path: Some(names::show(root)),
            line: None,
            column: None,
        }
    }
}

} // verus!
