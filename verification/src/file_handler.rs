//! Re-adopting a saved comparison: the configuration and record lists read
//! back from disk become a diff collection and a working context again. The
//! reading and parsing themselves stay with the surrounding application.

use vstd::prelude::*;

use crate::dtfterminal_types::{
    opt_view, Config, ConfigBuilder, DiffCollection, LibConfig, LibWorkingContext, SavedConfig,
    SavedContext, WorkingContext,
};
use crate::diff_types::WorkingFile;

verus! {

/// Holds the user's configuration and, once results were loaded, the
/// configuration they were saved under.
pub struct FileHandler {
    pub user_config: Config,
    pub saved_config: Option<SavedConfig>,
}

impl FileHandler {
    pub fn new(user_config: Config, saved_config: Option<SavedConfig>) -> (r: FileHandler)
        ensures
            r.user_config == user_config,
            r.saved_config == saved_config,
    {
        FileHandler { user_config, saved_config }
    }

    /// Adopts one saved comparison: every category counts as checked, with
    /// the saved records, and the context is rebuilt from the saved
    /// configuration.
    pub fn load_saved_results(&mut self, saved_data: SavedContext) -> (r: (
        DiffCollection,
        WorkingContext,
    ))
        ensures
            final(self).user_config == old(self).user_config,
            final(self).saved_config matches Some(c) && c == saved_data.config,
            r.0.0 matches Some(ks) && ks.deep_view() == saved_data.key_diff.deep_view(),
            r.0.1 matches Some(ts) && ts.deep_view() == saved_data.type_diff.deep_view(),
            r.0.2 matches Some(vs) && vs.deep_view() == saved_data.value_diff.deep_view(),
            r.0.3 matches Some(ads) && ads.deep_view() == saved_data.array_diff.deep_view(),
            r.1.lib_working_context.file_a.name@ == saved_data.config.file_a@,
            r.1.lib_working_context.file_b.name@ == saved_data.config.file_b@,
            r.1.lib_working_context.config.array_same_order
                == saved_data.config.array_same_order,
    {
        self.saved_config = Some(saved_data.config);

        let diff_collection = (
            Some(saved_data.key_diff),
            Some(saved_data.type_diff),
            Some(saved_data.value_diff),
            Some(saved_data.array_diff),
        );

        let working_context = self.build_working_context_from_loaded_data();

        (diff_collection, working_context)
    }

    /// The context a loaded comparison ran under: checking switches and
    /// files from the saved configuration, rendering switches and output
    /// targets from the user's.
    pub fn build_working_context_from_loaded_data(&self) -> (r: WorkingContext)
        requires
            self.saved_config is Some,
        ensures
            r.lib_working_context.file_a.name@ == self.saved_config->0.file_a@,
            r.lib_working_context.file_b.name@ == self.saved_config->0.file_b@,
            r.lib_working_context.config.array_same_order
                == self.saved_config->0.array_same_order,
            r.config.check_for_key_diffs == self.saved_config->0.check_for_key_diffs,
            r.config.check_for_type_diffs == self.saved_config->0.check_for_type_diffs,
            r.config.check_for_value_diffs == self.saved_config->0.check_for_value_diffs,
            r.config.check_for_array_diffs == self.saved_config->0.check_for_array_diffs,
            r.config.render_key_diffs == self.user_config.render_key_diffs,
            r.config.render_type_diffs == self.user_config.render_type_diffs,
            r.config.render_value_diffs == self.user_config.render_value_diffs,
            r.config.render_array_diffs == self.user_config.render_array_diffs,
            r.config.read_from_file@ == self.user_config.read_from_file@,
            opt_view(r.config.write_to_file) == opt_view(self.user_config.write_to_file),
            r.config.file_a matches Some(f) && f@ == self.saved_config->0.file_a@,
            r.config.file_b matches Some(f) && f@ == self.saved_config->0.file_b@,
            r.config.array_same_order == self.saved_config->0.array_same_order,
    {
        let saved_config = self.saved_config.as_ref().unwrap();
        let user_config = &self.user_config;

        let file_a = WorkingFile::new(saved_config.file_a.clone());
        let file_b = WorkingFile::new(saved_config.file_b.clone());
        let lib_working_context = LibWorkingContext::new(
            file_a,
            file_b,
            LibConfig::new(saved_config.array_same_order),
        );
        WorkingContext::new(
            lib_working_context,
            ConfigBuilder::new().check_for_key_diffs(saved_config.check_for_key_diffs)
                .check_for_type_diffs(saved_config.check_for_type_diffs)
                .check_for_value_diffs(saved_config.check_for_value_diffs)
                .check_for_array_diffs(saved_config.check_for_array_diffs)
                .render_key_diffs(user_config.render_key_diffs)
                .render_type_diffs(user_config.render_type_diffs)
                .render_value_diffs(user_config.render_value_diffs)
                .render_array_diffs(user_config.render_array_diffs)
                .read_from_file(user_config.read_from_file.clone())
                .write_to_file(crate::dtfterminal_types::clone_opt_string(&user_config.write_to_file))
                .file_a(Some(saved_config.file_a.clone()))
                .file_b(Some(saved_config.file_b.clone()))
                .array_same_order(saved_config.array_same_order)
                .build(),
        )
    }
}

} // verus!
