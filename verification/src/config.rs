//! Configuration values and their validation.
use vstd::prelude::*;

use crate::names::texts;
use crate::text::string_of;

verus! {

/// Settings shared by both subcommands.
#[derive(Debug)]
pub struct AppConfig {
    pub project_root: String,
    pub include_dirs: Vec<String>,
    pub file_extensions: Vec<String>,
    /// Translation functions: calls to these provide translation keys.
    pub i18n_functions: Vec<String>,
    /// Alert/notification functions: the first argument is user-visible text.
    pub alert_functions: Vec<String>,
    /// UI component functions: string arguments are user-visible text.
    pub ui_functions: Vec<String>,
    /// Namespace prefixes where every function is treated as a UI function.
    pub ui_namespaces: Vec<String>,
    /// Attributes whose string values are user-visible text.
    pub ui_attributes: Vec<String>,
    pub lint: LintConfig,
    pub check_keys: CheckKeysConfig,
}

/// Settings specific to the `lint` subcommand.
#[derive(Debug)]
pub struct LintConfig {
    pub exclude_patterns: Vec<String>,
    pub text_preview_length: usize,
    pub allow_strings: Vec<String>,
    pub allow_patterns: Vec<String>,
    /// Exception/error constructor functions: their arguments are developer-facing.
    pub exception_functions: Vec<String>,
    /// Functions whose arguments are not checked.
    pub ignore_context_functions: Vec<String>,
    /// Pure (non-UI) functions: string arguments inside are not reported.
    pub pure_functions: Vec<String>,
    /// Format/printf functions: only the first argument is flagged, in UI context.
    pub format_functions: Vec<String>,
}

impl Default for LintConfig {
    fn default() -> (r: Self)
        ensures
            r.exclude_patterns@.len() == 0,
            r.text_preview_length == 60,
            r.allow_strings@.len() == 0,
            r.allow_patterns@.len() == 0,
            r.exception_functions@.len() == 0,
            r.ignore_context_functions@.len() == 0,
            r.pure_functions@.len() == 0,
            r.format_functions@.len() == 0,
    {
        LintConfig {
            exclude_patterns: Vec::new(),
            text_preview_length: 60,
            allow_strings: Vec::new(),
            allow_patterns: Vec::new(),
            exception_functions: Vec::new(),
            ignore_context_functions: Vec::new(),
            pure_functions: Vec::new(),
            format_functions: Vec::new(),
        }
    }
}

/// Settings specific to the `check-keys` subcommand.
#[derive(Debug, Default)]
pub struct CheckKeysConfig {
    pub exclude_patterns: Vec<String>,
    /// Directory containing all dictionary EDN files.
    pub dicts_dir: String,
    /// Primary dictionary file whose keys define the full translation key set.
    pub primary_dict: String,
    /// Regex patterns matching keys that are always considered used.
    pub always_used_key_patterns: Vec<String>,
    /// Namespace prefixes whose keys are excluded from unused-key checking.
    pub ignore_key_namespaces: Vec<String>,
    /// Built-in db-ident definition sources.
    pub db_ident_defs: Vec<DbIdentDef>,
    /// Map attribute keys whose keyword values are translation key references.
    pub translation_key_attributes: Vec<String>,
}

/// A scoped reference to a built-in db-ident definition.
#[derive(Debug)]
pub struct DbIdentDef {
    /// Path to the file containing the definition.
    pub file: String,
    /// Name of the `def` or `defonce` form to extract keywords from.
    pub def: String,
}

/// The file extensions scanned when none are configured.
pub fn default_file_extensions() -> (r: Vec<String>)
    ensures
        texts(r@) == seq!["clj"@, "cljs"@, "cljc"@],
{
    let mut v: Vec<String> = Vec::new();
    v.push(string_of("clj"));
    v.push(string_of("cljs"));
    v.push(string_of("cljc"));
    assert(texts(v@) =~= seq!["clj"@, "cljs"@, "cljc"@]);
    v
}

/// The preview length used when none is configured.
pub fn default_text_preview_length() -> (r: usize)
    ensures
        r == 60,
{
    60
}

pub open spec fn empty_include_dirs_message() -> Seq<char> {
    "include_dirs is empty — no source files will be scanned.\nAdd at least one directory to include_dirs in your config file."@
}

pub open spec fn missing_dicts_dir_message() -> Seq<char> {
    "[check-keys] dicts_dir is not set.\nSpecify the directory that contains your EDN dictionary files."@
}

pub open spec fn missing_primary_dict_message() -> Seq<char> {
    "[check-keys] primary_dict is not set.\nSpecify the primary dictionary file whose keys define the key set."@
}

pub open spec fn no_key_mechanism_message() -> Seq<char> {
    "no key-reference mechanisms are configured: i18n_functions, ui_functions, ui_namespaces, alert_functions, and translation_key_attributes are all empty.\nAll translation keys would appear unused."@
}

impl AppConfig {
    /// True when no mechanism that references translation keys is configured.
    pub open spec fn lacks_key_mechanism(&self) -> bool {
        &&& self.i18n_functions@.len() == 0
        &&& self.ui_functions@.len() == 0
        &&& self.ui_namespaces@.len() == 0
        &&& self.alert_functions@.len() == 0
        &&& self.check_keys.translation_key_attributes@.len() == 0
    }

    /// Validate that fields required by the `lint` subcommand are configured:
    /// an error when `include_dirs` is empty.
    pub fn validate_for_lint(&self) -> (r: Result<(), String>)
        ensures
            r is Ok <==> self.include_dirs@.len() > 0,
            r matches Err(m) ==> m@ == empty_include_dirs_message(),
    {
        if self.include_dirs.len() == 0 {
            return Err(
                string_of(
                    "include_dirs is empty — no source files will be scanned.\nAdd at least one directory to include_dirs in your config file.",
                ),
            );
        }
        Ok(())
    }

    /// Validate that fields required by the `check-keys` subcommand are
    /// configured; the first missing group decides the error.
    pub fn validate_for_check_keys(&self) -> (r: Result<(), String>)
        ensures
            r is Ok <==> (self.include_dirs@.len() > 0 && self.check_keys.dicts_dir@.len() > 0
                && self.check_keys.primary_dict@.len() > 0 && !self.lacks_key_mechanism()),
            r matches Err(m) ==> m@ == (if self.include_dirs@.len() == 0 {
                empty_include_dirs_message()
            } else if self.check_keys.dicts_dir@.len() == 0 {
                missing_dicts_dir_message()
            } else if self.check_keys.primary_dict@.len() == 0 {
                missing_primary_dict_message()
            } else {
                no_key_mechanism_message()
            }),
    {
        if self.include_dirs.len() == 0 {
            return Err(
                string_of(
                    "include_dirs is empty — no source files will be scanned.\nAdd at least one directory to include_dirs in your config file.",
                ),
            );
        }
        if self.check_keys.dicts_dir.as_str().is_empty() {
            return Err(
                string_of(
                    "[check-keys] dicts_dir is not set.\nSpecify the directory that contains your EDN dictionary files.",
                ),
            );
        }
        if self.check_keys.primary_dict.as_str().is_empty() {
            return Err(
                string_of(
                    "[check-keys] primary_dict is not set.\nSpecify the primary dictionary file whose keys define the key set.",
                ),
            );
        }
        if self.i18n_functions.len() == 0 && self.ui_functions.len() == 0
            && self.ui_namespaces.len() == 0 && self.alert_functions.len() == 0
            && self.check_keys.translation_key_attributes.len() == 0 {
            return Err(
                string_of(
                    "no key-reference mechanisms are configured: i18n_functions, ui_functions, ui_namespaces, alert_functions, and translation_key_attributes are all empty.\nAll translation keys would appear unused.",
                ),
            );
        }
        Ok(())
    }
}

} // verus!
