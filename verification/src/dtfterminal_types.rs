//! The run configuration around the engine: which categories to check and
//! render, where the inputs come from, where results go, and the context one
//! comparison runs under.

use vstd::prelude::*;

use crate::diff_types::{ArrayDiff, KeyDiff, TypeDiff, ValueDiff};

verus! {

pub type LibConfig = crate::diff_types::Config;

pub type LibWorkingContext = crate::diff_types::WorkingContext;

/// The data a user's arguments are parsed into: the two input paths and the
/// run configuration.
pub type ParsedArgs = (Option<String>, Option<String>, Config);

/// How the result of diff checking moves around: one optional record list
/// per category; a `None` means the category was not checked, not that no
/// diffs were found.
pub type DiffCollection = (
    Option<Vec<KeyDiff>>,
    Option<Vec<TypeDiff>>,
    Option<Vec<ValueDiff>>,
    Option<Vec<ArrayDiff>>,
);

/// The structure a result set gets saved in for later re-use.
#[derive(Debug)]
pub struct SavedConfig {
    pub check_for_key_diffs: bool,
    pub check_for_type_diffs: bool,
    pub check_for_value_diffs: bool,
    pub check_for_array_diffs: bool,
    pub file_a: String,
    pub file_b: String,
    pub array_same_order: bool,
}

impl SavedConfig {
    pub fn new(
        check_for_key_diffs: bool,
        check_for_type_diffs: bool,
        check_for_value_diffs: bool,
        check_for_array_diffs: bool,
        file_a: String,
        file_b: String,
        array_same_order: bool,
    ) -> (r: SavedConfig)
        ensures
            r == (SavedConfig {
                check_for_key_diffs,
                check_for_type_diffs,
                check_for_value_diffs,
                check_for_array_diffs,
                file_a,
                file_b,
                array_same_order,
            }),
    {
        SavedConfig {
            check_for_key_diffs,
            check_for_type_diffs,
            check_for_value_diffs,
            check_for_array_diffs,
            file_a,
            file_b,
            array_same_order,
        }
    }
}

/// The structure the runtime configuration is stored in.
#[derive(Debug)]
pub struct Config {
    pub check_for_key_diffs: bool,
    pub check_for_type_diffs: bool,
    pub check_for_value_diffs: bool,
    pub check_for_array_diffs: bool,
    pub render_key_diffs: bool,
    pub render_type_diffs: bool,
    pub render_value_diffs: bool,
    pub render_array_diffs: bool,
    pub read_from_file: String,
    pub write_to_file: Option<String>,
    pub file_a: Option<String>,
    pub file_b: Option<String>,
    pub array_same_order: bool,
    pub browser_view: Option<String>,
    pub printer_friendly: bool,
    pub no_browser_show: bool,
}

/// The views of an optional string: `None` stays `None`.
pub open spec fn opt_view(o: Option<String>) -> Option<Seq<char>> {
    match o {
        Option::Some(s) => Option::Some(s@),
        Option::None => Option::None,
    }
}

/// Clones an optional string.
pub fn clone_opt_string(o: &Option<String>) -> (r: Option<String>)
    ensures
        opt_view(r) == opt_view(*o),
{
    match o {
        Option::Some(s) => Option::Some(s.clone()),
        Option::None => Option::None,
    }
}

impl Config {
    /// The boolean switches and string views of this configuration, for
    /// stating that two configurations agree.
    pub open spec fn snapshot(self) -> (
        (bool, bool, bool, bool),
        (bool, bool, bool, bool),
        Seq<char>,
        (Option<Seq<char>>, Option<Seq<char>>, Option<Seq<char>>, Option<Seq<char>>),
        (bool, bool, bool),
    ) {
        (
            (
                self.check_for_key_diffs,
                self.check_for_type_diffs,
                self.check_for_value_diffs,
                self.check_for_array_diffs,
            ),
            (
                self.render_key_diffs,
                self.render_type_diffs,
                self.render_value_diffs,
                self.render_array_diffs,
            ),
            self.read_from_file@,
            (
                opt_view(self.write_to_file),
                opt_view(self.file_a),
                opt_view(self.file_b),
                opt_view(self.browser_view),
            ),
            (self.array_same_order, self.printer_friendly, self.no_browser_show),
        )
    }
}

impl Clone for Config {
    fn clone(&self) -> (r: Self)
        ensures
            r.snapshot() == self.snapshot(),
    {
        Config {
            check_for_key_diffs: self.check_for_key_diffs,
            check_for_type_diffs: self.check_for_type_diffs,
            check_for_value_diffs: self.check_for_value_diffs,
            check_for_array_diffs: self.check_for_array_diffs,
            render_key_diffs: self.render_key_diffs,
            render_type_diffs: self.render_type_diffs,
            render_value_diffs: self.render_value_diffs,
            render_array_diffs: self.render_array_diffs,
            read_from_file: self.read_from_file.clone(),
            write_to_file: clone_opt_string(&self.write_to_file),
            file_a: clone_opt_string(&self.file_a),
            file_b: clone_opt_string(&self.file_b),
            array_same_order: self.array_same_order,
            browser_view: clone_opt_string(&self.browser_view),
            printer_friendly: self.printer_friendly,
            no_browser_show: self.no_browser_show,
        }
    }
}

/// Helper for building `Config` values one option at a time.
#[derive(Debug)]
pub struct ConfigBuilder {
    pub check_for_key_diffs: bool,
    pub check_for_type_diffs: bool,
    pub check_for_value_diffs: bool,
    pub check_for_array_diffs: bool,
    pub render_key_diffs: bool,
    pub render_type_diffs: bool,
    pub render_value_diffs: bool,
    pub render_array_diffs: bool,
    pub read_from_file: String,
    pub write_to_file: Option<String>,
    pub file_a: Option<String>,
    pub file_b: Option<String>,
    pub array_same_order: bool,
    pub browser_view: Option<String>,
    pub printer_friendly: bool,
    pub no_browser_show: bool,
}

impl ConfigBuilder {
    /// A builder with every switch off and every string empty.
    pub fn new() -> (r: ConfigBuilder)
        ensures
            !r.check_for_key_diffs,
            !r.check_for_type_diffs,
            !r.check_for_value_diffs,
            !r.check_for_array_diffs,
            !r.render_key_diffs,
            !r.render_type_diffs,
            !r.render_value_diffs,
            !r.render_array_diffs,
            r.read_from_file@ == Seq::<char>::empty(),
            r.write_to_file is None,
            r.file_a is None,
            r.file_b is None,
            !r.array_same_order,
            r.browser_view is None,
            !r.printer_friendly,
            !r.no_browser_show,
    {
        ConfigBuilder {
            check_for_key_diffs: false,
            check_for_type_diffs: false,
            check_for_value_diffs: false,
            check_for_array_diffs: false,
            render_key_diffs: false,
            render_type_diffs: false,
            render_value_diffs: false,
            render_array_diffs: false,
            read_from_file: String::new(),
            write_to_file: Option::None,
            file_a: Option::None,
            file_b: Option::None,
            array_same_order: false,
            browser_view: Option::None,
            printer_friendly: false,
            no_browser_show: false,
        }
    }

    pub fn check_for_key_diffs(self, check_for_key_diffs: bool) -> (r: ConfigBuilder)
        ensures
            r == (ConfigBuilder { check_for_key_diffs, ..self }),
    {
        ConfigBuilder { check_for_key_diffs, ..self }
    }

    pub fn check_for_type_diffs(self, check_for_type_diffs: bool) -> (r: ConfigBuilder)
        ensures
            r == (ConfigBuilder { check_for_type_diffs, ..self }),
    {
        ConfigBuilder { check_for_type_diffs, ..self }
    }

    pub fn check_for_value_diffs(self, check_for_value_diffs: bool) -> (r: ConfigBuilder)
        ensures
            r == (ConfigBuilder { check_for_value_diffs, ..self }),
    {
        ConfigBuilder { check_for_value_diffs, ..self }
    }

    pub fn check_for_array_diffs(self, check_for_array_diffs: bool) -> (r: ConfigBuilder)
        ensures
            r == (ConfigBuilder { check_for_array_diffs, ..self }),
    {
        ConfigBuilder { check_for_array_diffs, ..self }
    }

    pub fn render_key_diffs(self, render_key_diffs: bool) -> (r: ConfigBuilder)
        ensures
            r == (ConfigBuilder { render_key_diffs, ..self }),
    {
        ConfigBuilder { render_key_diffs, ..self }
    }

    pub fn render_type_diffs(self, render_type_diffs: bool) -> (r: ConfigBuilder)
        ensures
            r == (ConfigBuilder { render_type_diffs, ..self }),
    {
        ConfigBuilder { render_type_diffs, ..self }
    }

    pub fn render_value_diffs(self, render_value_diffs: bool) -> (r: ConfigBuilder)
        ensures
            r == (ConfigBuilder { render_value_diffs, ..self }),
    {
        ConfigBuilder { render_value_diffs, ..self }
    }

    pub fn render_array_diffs(self, render_array_diffs: bool) -> (r: ConfigBuilder)
        ensures
            r == (ConfigBuilder { render_array_diffs, ..self }),
    {
        ConfigBuilder { render_array_diffs, ..self }
    }

    pub fn read_from_file(self, read_from_file: String) -> (r: ConfigBuilder)
        ensures
            r == (ConfigBuilder { read_from_file, ..self }),
    {
        ConfigBuilder { read_from_file, ..self }
    }

    pub fn write_to_file(self, write_to_file: Option<String>) -> (r: ConfigBuilder)
        ensures
            r == (ConfigBuilder { write_to_file, ..self }),
    {
        ConfigBuilder { write_to_file, ..self }
    }

    pub fn file_a(self, file_a: Option<String>) -> (r: ConfigBuilder)
        ensures
            r == (ConfigBuilder { file_a, ..self }),
    {
        ConfigBuilder { file_a, ..self }
    }

    pub fn file_b(self, file_b: Option<String>) -> (r: ConfigBuilder)
        ensures
            r == (ConfigBuilder { file_b, ..self }),
    {
        ConfigBuilder { file_b, ..self }
    }

    pub fn array_same_order(self, array_same_order: bool) -> (r: ConfigBuilder)
        ensures
            r == (ConfigBuilder { array_same_order, ..self }),
    {
        ConfigBuilder { array_same_order, ..self }
    }

    pub fn browser_view(self, browser_view: Option<String>) -> (r: ConfigBuilder)
        ensures
            r == (ConfigBuilder { browser_view, ..self }),
    {
        ConfigBuilder { browser_view, ..self }
    }

    pub fn printer_friendly(self, printer_friendly: bool) -> (r: ConfigBuilder)
        ensures
            r == (ConfigBuilder { printer_friendly, ..self }),
    {
        ConfigBuilder { printer_friendly, ..self }
    }

    pub fn no_browser_show(self, no_browser_show: bool) -> (r: ConfigBuilder)
        ensures
            r == (ConfigBuilder { no_browser_show, ..self }),
    {
        ConfigBuilder { no_browser_show, ..self }
    }

    /// The finished configuration: every option exactly as set.
    pub fn build(self) -> (r: Config)
        ensures
            r == (Config {
                check_for_key_diffs: self.check_for_key_diffs,
                check_for_type_diffs: self.check_for_type_diffs,
                check_for_value_diffs: self.check_for_value_diffs,
                check_for_array_diffs: self.check_for_array_diffs,
                render_key_diffs: self.render_key_diffs,
                render_type_diffs: self.render_type_diffs,
                render_value_diffs: self.render_value_diffs,
                render_array_diffs: self.render_array_diffs,
                read_from_file: self.read_from_file,
                write_to_file: self.write_to_file,
                file_a: self.file_a,
                file_b: self.file_b,
                array_same_order: self.array_same_order,
                browser_view: self.browser_view,
                printer_friendly: self.printer_friendly,
                no_browser_show: self.no_browser_show,
            }),
    {
        Config {
            check_for_key_diffs: self.check_for_key_diffs,
            check_for_type_diffs: self.check_for_type_diffs,
            check_for_value_diffs: self.check_for_value_diffs,
            check_for_array_diffs: self.check_for_array_diffs,
            render_key_diffs: self.render_key_diffs,
            render_type_diffs: self.render_type_diffs,
            render_value_diffs: self.render_value_diffs,
            render_array_diffs: self.render_array_diffs,
            read_from_file: self.read_from_file,
            write_to_file: self.write_to_file,
            file_a: self.file_a,
            file_b: self.file_b,
            array_same_order: self.array_same_order,
            browser_view: self.browser_view,
            printer_friendly: self.printer_friendly,
            no_browser_show: self.no_browser_show,
        }
    }
}

/// Contextual data for the current run: the engine's context plus the full
/// user configuration.
#[derive(Debug)]
pub struct WorkingContext {
    pub lib_working_context: LibWorkingContext,
    pub config: Config,
}

impl WorkingContext {
    pub fn new(lib_working_context: LibWorkingContext, config: Config) -> (r: WorkingContext)
        ensures
            r.lib_working_context == lib_working_context,
            r.config == config,
    {
        WorkingContext { lib_working_context, config }
    }

    /// The display names of the two compared documents.
    pub fn get_file_names(&self) -> (r: (&str, &str))
        ensures
            r.0@ == self.lib_working_context.file_a.name@,
            r.1@ == self.lib_working_context.file_b.name@,
    {
        let file_name_a = self.lib_working_context.file_a.name.as_str();
        let file_name_b = self.lib_working_context.file_b.name.as_str();
        (file_name_a, file_name_b)
    }
}

impl Clone for WorkingContext {
    fn clone(&self) -> (r: Self)
        ensures
            r.lib_working_context.file_a.name@ == self.lib_working_context.file_a.name@,
            r.lib_working_context.file_b.name@ == self.lib_working_context.file_b.name@,
            r.lib_working_context.config == self.lib_working_context.config,
            r.config.snapshot() == self.config.snapshot(),
    {
        WorkingContext {
            lib_working_context: self.lib_working_context.clone(),
            config: self.config.clone(),
        }
    }
}

/// How a finished comparison gets stored on disk.
#[derive(Debug)]
pub struct SavedContext {
    pub key_diff: Vec<KeyDiff>,
    pub type_diff: Vec<TypeDiff>,
    pub value_diff: Vec<ValueDiff>,
    pub array_diff: Vec<ArrayDiff>,
    pub config: SavedConfig,
}

impl SavedContext {
    pub fn new(
        key_diff: Vec<KeyDiff>,
        type_diff: Vec<TypeDiff>,
        value_diff: Vec<ValueDiff>,
        array_diff: Vec<ArrayDiff>,
        config: SavedConfig,
    ) -> (r: SavedContext)
        ensures
            r == (SavedContext { key_diff, type_diff, value_diff, array_diff, config }),
    {
        SavedContext { key_diff, type_diff, value_diff, array_diff, config }
    }
}

/// The failures the surrounding application reports: a failed read or
/// write, a failed comparison, or another error wrapped whole.
#[derive(Debug)]
pub enum DtfError {
    IoError(String),
    DiffError(String),
    GeneralError(Box<DtfError>),
}

impl DtfError {
    /// The display line each variant carries.
    pub open spec fn spec_message(self) -> Seq<char>
        decreases self,
    {
        match self {
            DtfError::IoError(err) => "IO error: "@ + err@,
            DtfError::DiffError(msg) => "Diff error: "@ + msg@,
            DtfError::GeneralError(err) => "General error happened "@ + (*err).spec_message(),
        }
    }

    /// A display line for the error, in place of a formatter.
    pub fn message(&self) -> (r: String)
        ensures
            r@ == self.spec_message(),
        decreases *self,
    {
        match self {
            DtfError::IoError(err) => {
                let mut m = String::new();
                m.append("IO error: ");
                m.append(err.as_str());
                proof {
                    assert(m@ =~= "IO error: "@ + err@);
                }
                m
            },
            DtfError::DiffError(msg) => {
                let mut m = String::new();
                m.append("Diff error: ");
                m.append(msg.as_str());
                proof {
                    assert(m@ =~= "Diff error: "@ + msg@);
                }
                m
            },
            DtfError::GeneralError(err) => {
                let mut m = String::new();
                m.append("General error happened ");
                let inner = err.message();
                m.append(inner.as_str());
                proof {
                    assert(m@ =~= "General error happened "@ + (**err).spec_message());
                }
                m
            },
        }
    }
}

} // verus!
