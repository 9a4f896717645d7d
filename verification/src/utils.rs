//! Helpers around the engine's records: grouping array diffs for display,
//! picking the values of one column, detecting the input format from a file
//! name, and pretty formatting for the renderers.

use vstd::prelude::*;

use crate::diff_types::{ArrayDiff, ArrayDiffDesc, ArrayDiffV, WorkingFile};
use crate::dtfterminal_types::{Config, LibConfig, LibWorkingContext, WorkingContext};

verus! {

/// Unicode representation of a checkmark to render in the terminal.
pub const CHECKMARK: &'static str = "\u{2713}";

/// Unicode representation of a cross to render in the terminal.
pub const MULTIPLY: &'static str = "\u{00D7}";

/// Whether `p` is a suffix of `s`.
pub open spec fn spec_ends_with(s: Seq<char>, p: Seq<char>) -> bool {
    p.len() <= s.len() && s.subrange(s.len() - p.len(), s.len() as int) == p
}

/// Decides whether `suffix` ends `s`.
pub fn ends_with_str(s: &str, suffix: &str) -> (r: bool)
    ensures
        r == spec_ends_with(s@, suffix@),
{
    let n = s.unicode_len();
    let m = suffix.unicode_len();
    if m > n {
        return false;
    }
    let mut i: usize = 0;
    #[verifier::loop_isolation(false)]
    while i < m
        invariant
            m <= n,
            i <= m,
            forall|j: int| 0 <= j < i ==> s@[n - m + j] == suffix@[j],
        decreases m - i,
    {
        if s.get_char(n - m + i) != suffix.get_char(i) {
            proof {
                assert(s@.subrange(s@.len() - suffix@.len(), s@.len() as int)[i as int] != suffix@[
                    i as int
                ]);
            }
            return false;
        }
        i = i + 1;
    }
    proof {
        assert(s@.subrange(s@.len() - suffix@.len(), s@.len() as int) =~= suffix@);
    }
    true
}

/// A file name that names a YAML document.
pub open spec fn is_yaml_name(s: Seq<char>) -> bool {
    spec_ends_with(s, ".yaml"@) || spec_ends_with(s, ".yml"@)
}

/// Checks if a file is a YAML file.
pub fn is_yaml_file(path: &str) -> (r: bool)
    ensures
        r == is_yaml_name(path@),
{
    ends_with_str(path, ".yaml") || ends_with_str(path, ".yml")
}

/// What `serde_json` pretty-printing makes of a parseable string; the input
/// itself where it does not parse. The result depends on the characters
/// alone.
pub uninterp spec fn pretty_json_of(s: Seq<char>) -> Seq<char>;

/// What `serde_yaml` re-serialization makes of a parseable string; the input
/// itself where it does not parse. The result depends on the characters
/// alone.
pub uninterp spec fn pretty_yaml_of(s: Seq<char>) -> Seq<char>;

/// Formats JSON strings for display.
///
/// Relies on `serde_json::from_str` and `serde_json::to_string_pretty`: a
/// parse followed by a pretty re-serialization is a function of the input
/// text alone, and a string that does not parse is returned unchanged.
#[verifier::external_body]
pub fn prettify_json_str(json_str: &str) -> (r: String)
    ensures
        r@ == pretty_json_of(json_str@),
{
    match serde_json::from_str::<serde_json::Value>(json_str) {
        Ok(json_value) => serde_json::to_string_pretty(&json_value).unwrap_or(json_str.to_owned()),
        Err(_) => json_str.to_owned(),
    }
}

/// Formats YAML strings for display.
///
/// Relies on `serde_yaml::from_str` and `serde_yaml::to_string`: a parse
/// followed by a re-serialization is a function of the input text alone, and
/// a string that does not parse is returned unchanged.
#[verifier::external_body]
pub fn prettify_yaml_str(yaml_str: &str) -> (r: String)
    ensures
        r@ == pretty_yaml_of(yaml_str@),
{
    match serde_yaml::from_str::<serde_yaml::Value>(yaml_str) {
        Ok(yaml_value) => serde_yaml::to_string(&yaml_value).unwrap_or(yaml_str.to_owned()),
        Err(_) => yaml_str.to_owned(),
    }
}

/// The display form of one rendered value, by the compared files' format.
pub open spec fn pretty_of(yaml: bool, s: Seq<char>) -> Seq<char> {
    if yaml {
        pretty_yaml_of(s)
    } else {
        pretty_json_of(s)
    }
}

/// Formats data based on file type. Both compared files share one format,
/// so the first name decides.
pub fn prettify_data(file_names: (&str, &str), data: &str) -> (r: String)
    ensures
        r@ == pretty_of(is_yaml_name(file_names.0@), data@),
{
    let (file1, _) = file_names;
    if is_yaml_file(file1) {
        return prettify_yaml_str(data);
    }
    prettify_json_str(data)
}

/// The distinct keys of a record list, in order of first appearance.
pub open spec fn group_keys(data: Seq<ArrayDiffV>) -> Seq<Seq<char>>
    decreases data.len(),
{
    if data.len() == 0 {
        Seq::empty()
    } else {
        let pre = group_keys(data.subrange(0, data.len() - 1));
        if pre.contains(data[data.len() - 1].key) {
            pre
        } else {
            pre.push(data[data.len() - 1].key)
        }
    }
}

/// The records carrying one key, in their original order.
pub open spec fn records_with_key(data: Seq<ArrayDiffV>, k: Seq<char>) -> Seq<ArrayDiffV>
    decreases data.len(),
{
    if data.len() == 0 {
        Seq::empty()
    } else {
        let pre = records_with_key(data.subrange(0, data.len() - 1), k);
        if data[data.len() - 1].key == k {
            pre.push(data[data.len() - 1])
        } else {
            pre
        }
    }
}

/// One group per distinct key, in order of first appearance, each holding
/// that key's records in order.
pub open spec fn grouped_by_key(data: Seq<ArrayDiffV>) -> Seq<(Seq<char>, Seq<ArrayDiffV>)> {
    Seq::new(group_keys(data).len(), |i: int| (group_keys(data)[i], records_with_key(
        data,
        group_keys(data)[i],
    )))
}

/// Decides whether any collected key equals `k`.
fn contains_key(keys: &Vec<String>, k: &String) -> (r: bool)
    ensures
        r == keys.deep_view().contains(k@),
{
    let ghost kv = keys.deep_view();
    let mut i: usize = 0;
    #[verifier::loop_isolation(false)]
    while i < keys.len()
        invariant
            i <= keys@.len(),
            forall|j: int| 0 <= j < i ==> kv[j] != k@,
        decreases keys@.len() - i,
    {
        if keys[i] == *k {
            proof {
                assert(kv[i as int] == k@);
            }
            return true;
        }
        i = i + 1;
    }
    proof {
        assert(forall|j: int| 0 <= j < kv.len() ==> kv[j] != k@);
    }
    false
}

/// Group array diffs by key, keeping the keys' first-appearance order and
/// each group's record order.
pub fn group_by_key(data: &Vec<ArrayDiff>) -> (r: Vec<(String, Vec<ArrayDiff>)>)
    ensures
        r.deep_view() == grouped_by_key(data.deep_view()),
{
    let ghost dv = data.deep_view();
    let mut keys: Vec<String> = Vec::new();
    let mut i: usize = 0;
    #[verifier::loop_isolation(false)]
    while i < data.len()
        invariant
            i <= data@.len(),
            dv.len() == data@.len(),
            keys.deep_view() == group_keys(dv.take(i as int)),
        decreases data@.len() - i,
    {
        let ghost k0 = keys.deep_view();
        let present = contains_key(&keys, &data[i].key);
        proof {
            assert(dv.take(i as int + 1).subrange(0, i as int) =~= dv.take(i as int));
            assert(dv.take(i as int + 1)[i as int] == dv[i as int]);
        }
        if !present {
            let k = data[i].key.clone();
            keys.push(k);
            proof {
                assert(keys.deep_view() =~= k0.push(dv[i as int].key));
            }
        }
        proof {
            assert(keys.deep_view() =~= group_keys(dv.take(i as int + 1)));
        }
        i = i + 1;
    }
    proof {
        assert(dv.take(dv.len() as int) =~= dv);
    }
    let mut r: Vec<(String, Vec<ArrayDiff>)> = Vec::new();
    let mut g: usize = 0;
    #[verifier::loop_isolation(false)]
    while g < keys.len()
        invariant
            g <= keys@.len(),
            keys.deep_view() == group_keys(dv),
            dv.len() == data@.len(),
            r.deep_view() =~= grouped_by_key(dv).take(g as int),
        decreases keys@.len() - g,
    {
        let ghost r0 = r.deep_view();
        let key = keys[g].clone();
        let mut group: Vec<ArrayDiff> = Vec::new();
        let mut i: usize = 0;
        #[verifier::loop_isolation(false)]
        while i < data.len()
            invariant
                i <= data@.len(),
                dv.len() == data@.len(),
                key@ == group_keys(dv)[g as int],
                group.deep_view() == records_with_key(dv.take(i as int), key@),
            decreases data@.len() - i,
        {
            let ghost g0 = group.deep_view();
            proof {
                assert(dv.take(i as int + 1).subrange(0, i as int) =~= dv.take(i as int));
                assert(dv.take(i as int + 1)[i as int] == dv[i as int]);
            }
            if data[i].key == key {
                let ad = data[i].clone();
                group.push(ad);
                proof {
                    assert(group.deep_view() =~= g0.push(dv[i as int]));
                }
            }
            proof {
                assert(group.deep_view() =~= records_with_key(dv.take(i as int + 1), key@));
            }
            i = i + 1;
        }
        proof {
            assert(dv.take(dv.len() as int) =~= dv);
        }
        r.push((key, group));
        proof {
            assert(r.deep_view() =~= r0.push((key@, records_with_key(dv, key@))));
            assert(r.deep_view() =~= grouped_by_key(dv).take(g as int + 1));
        }
        g = g + 1;
    }
    proof {
        assert(grouped_by_key(dv).take(grouped_by_key(dv).len() as int) =~= grouped_by_key(dv));
    }
    r
}

/// The display values of one column: the records of one side tag, each
/// pretty-formatted for the compared files' format, in order.
pub open spec fn display_values(vs: Seq<ArrayDiffV>, d: ArrayDiffDesc, yaml: bool) -> Seq<
    Seq<char>,
>
    decreases vs.len(),
{
    if vs.len() == 0 {
        Seq::empty()
    } else {
        let pre = display_values(vs.subrange(0, vs.len() - 1), d, yaml);
        if vs[vs.len() - 1].descriptor == d {
            pre.push(pretty_of(yaml, vs[vs.len() - 1].value))
        } else {
            pre
        }
    }
}

/// Get values to display in each column. Columns represent the files
/// compared.
pub fn get_display_values_by_column(
    context: &WorkingContext,
    values: &Vec<ArrayDiff>,
    diff_desc: ArrayDiffDesc,
) -> (r: Vec<String>)
    ensures
        r.deep_view() == display_values(
            values.deep_view(),
            diff_desc,
            is_yaml_name(context.lib_working_context.file_a.name@),
        ),
{
    let ghost vv = values.deep_view();
    let file_names = context.get_file_names();
    let ghost yaml = is_yaml_name(context.lib_working_context.file_a.name@);
    let mut r: Vec<String> = Vec::new();
    let mut i: usize = 0;
    #[verifier::loop_isolation(false)]
    while i < values.len()
        invariant
            i <= values@.len(),
            vv.len() == values@.len(),
            r.deep_view() == display_values(vv.take(i as int), diff_desc, yaml),
        decreases values@.len() - i,
    {
        let ghost r0 = r.deep_view();
        proof {
            assert(vv.take(i as int + 1).subrange(0, i as int) =~= vv.take(i as int));
            assert(vv.take(i as int + 1)[i as int] == vv[i as int]);
        }
        if values[i].descriptor == diff_desc {
            let shown = prettify_data(file_names, values[i].value.as_str());
            r.push(shown);
            proof {
                assert(r.deep_view() =~= r0.push(pretty_of(yaml, vv[i as int].value)));
            }
        }
        proof {
            assert(r.deep_view() =~= display_values(vv.take(i as int + 1), diff_desc, yaml));
        }
        i = i + 1;
    }
    proof {
        assert(vv.take(vv.len() as int) =~= vv);
    }
    r
}

/// Creates a working context object based on the user configuration, which
/// must already name the two files.
pub fn create_working_context(config: &Config) -> (r: WorkingContext)
    requires
        config.file_a is Some,
        config.file_b is Some,
    ensures
        r.lib_working_context.file_a.name@ == config.file_a->0@,
        r.lib_working_context.file_b.name@ == config.file_b->0@,
        r.lib_working_context.config.array_same_order == config.array_same_order,
        r.config.snapshot() == config.snapshot(),
{
    let file_a = WorkingFile::new(config.file_a.as_ref().unwrap().clone());
    let file_b = WorkingFile::new(config.file_b.as_ref().unwrap().clone());
    let lib_working_context = LibWorkingContext::new(
        file_a,
        file_b,
        LibConfig::new(config.array_same_order),
    );
    WorkingContext::new(lib_working_context, config.clone())
}

} // verus!
