//! The diff engine: runs exactly the checkers the configuration enables,
//! each from the empty root path, over two object-rooted document trees. A
//! disabled category is absent from the result, not empty.

use vstd::prelude::*;

use crate::array_checker::{array_diffs_obj, find_array_diffs};
use crate::dtfterminal_types::{DiffCollection, WorkingContext};
use crate::key_checker::{find_key_diffs, key_diffs_obj};
use crate::node::{entries_view, DocumentNode};
use crate::type_checker::{find_type_diffs, type_diffs_obj};
use crate::value_checker::{find_value_diffs, value_diffs_obj};

verus! {

/// Compares two object-rooted documents under the given context: each
/// enabled category is checked from the root and present in the result;
/// each disabled one is absent.
pub fn check_for_diffs(
    data1: &Vec<(String, DocumentNode)>,
    data2: &Vec<(String, DocumentNode)>,
    context: &WorkingContext,
) -> (r: DiffCollection)
    ensures
        context.config.check_for_key_diffs ==> (r.0 matches Some(ks) && ks.deep_view()
            == key_diffs_obj(
            Seq::empty(),
            entries_view(data1@),
            entries_view(data2@),
            context.lib_working_context.file_a.name@,
            context.lib_working_context.file_b.name@,
            context.lib_working_context.config.array_same_order,
        )),
        !context.config.check_for_key_diffs ==> r.0 is None,
        context.config.check_for_type_diffs ==> (r.1 matches Some(ts) && ts.deep_view()
            == type_diffs_obj(
            Seq::empty(),
            entries_view(data1@),
            entries_view(data2@),
            context.lib_working_context.config.array_same_order,
        )),
        !context.config.check_for_type_diffs ==> r.1 is None,
        context.config.check_for_value_diffs ==> (r.2 matches Some(vs) && vs.deep_view()
            == value_diffs_obj(
            Seq::empty(),
            entries_view(data1@),
            entries_view(data2@),
            context.lib_working_context.config.array_same_order,
        )),
        !context.config.check_for_value_diffs ==> r.2 is None,
        context.config.check_for_array_diffs ==> (r.3 matches Some(ads) && ads.deep_view()
            == array_diffs_obj(
            Seq::empty(),
            entries_view(data1@),
            entries_view(data2@),
            context.lib_working_context.config.array_same_order,
        )),
        !context.config.check_for_array_diffs ==> r.3 is None,
{
    proof {
        reveal_strlit("");
        assert(""@ =~= Seq::<char>::empty());
    }
    let key_diff = if context.config.check_for_key_diffs {
        Some(find_key_diffs("", data1, data2, &context.lib_working_context))
    } else {
        None
    };
    let type_diff = if context.config.check_for_type_diffs {
        Some(find_type_diffs("", data1, data2, &context.lib_working_context))
    } else {
        None
    };
    let value_diff = if context.config.check_for_value_diffs {
        Some(find_value_diffs("", data1, data2, &context.lib_working_context))
    } else {
        None
    };
    let array_diff = if context.config.check_for_array_diffs {
        Some(find_array_diffs("", data1, data2, &context.lib_working_context))
    } else {
        None
    };
    (key_diff, type_diff, value_diff, array_diff)
}

} // verus!
