//! The verified half of template scaffolding: deciding a template file's
//! target name and rendering its contents. Walking the template directory
//! and writing files stay with the caller.

use vstd::prelude::*;

use crate::interpolator::str_replace_spec;
use crate::smap::DeepClone;
use crate::strutil::push_char;
use vstd::string::StrSliceExecFns;

verus! {

/// The marker suffix of files whose contents are rendered.
pub open spec fn spec_template_suffix() -> Seq<char> {
    ".template"@
}

/// The target name of a template file: the name without the marker suffix,
/// or nothing when the file is copied as it is.
pub fn template_target_name(file_name: &str) -> (r: Option<String>)
    ensures
        match r {
            Some(stem) => file_name@.len() >= spec_template_suffix().len() && file_name@.skip(
                file_name@.len() - spec_template_suffix().len(),
            ) == spec_template_suffix() && stem@ == file_name@.take(
                file_name@.len() - spec_template_suffix().len(),
            ),
            None => !(file_name@.len() >= spec_template_suffix().len() && file_name@.skip(
                file_name@.len() - spec_template_suffix().len(),
            ) =~= spec_template_suffix()),
        },
{
    proof {
        reveal_strlit(".template");
    }
    let n = file_name.unicode_len();
    if n < 9 {
        proof {
            assert(spec_template_suffix().len() == 9);
        }
        return None;
    }
    let suffix = ".template";
    let mut i: usize = 0;
    while i < 9
        invariant
            i <= 9,
            n == file_name@.len(),
            n >= 9,
            suffix@ == spec_template_suffix(),
            suffix@.len() == 9,
            forall|j: int| 0 <= j < i ==> file_name@[n - 9 + j] == spec_template_suffix()[j],
        decreases 9 - i,
    {
        if file_name.get_char(n - 9 + i) != suffix.get_char(i) {
            proof {
                assert(file_name@.skip(n - 9)[i as int] != spec_template_suffix()[i as int]);
            }
            return None;
        }
        i += 1;
    }
    let mut stem = String::new();
    let mut k: usize = 0;
    while k < n - 9
        invariant
            k <= n - 9,
            n == file_name@.len(),
            n >= 9,
            stem@ == file_name@.take(n - 9).take(k as int),
        decreases n - 9 - k,
    {
        let c = file_name.get_char(k);
        push_char(&mut stem, c);
        proof {
            assert(stem@ =~= file_name@.take(n - 9).take(k + 1));
        }
        k += 1;
    }
    proof {
        assert(file_name@.take(n - 9).take((n - 9) as int) =~= file_name@.take(n - 9));
        assert(file_name@.skip(n - 9) =~= spec_template_suffix());
    }
    Some(stem)
}

/// Renders a template's contents: `{{name}}` becomes the project's name.
pub fn render_template_content(content: &str, project_name: &str) -> (r: String)
    ensures
        r@ == str_replace_spec(content@, "{{name}}"@, project_name@),
{
    crate::interpolator::replace_name_token(content, project_name)
}

/// One file of a scaffolding template, read by the caller.
pub struct TemplateEntry {
    pub name: String,
    pub contents: String,
}

/// Whether a file name carries the rendering marker.
pub open spec fn spec_is_template_name(name: Seq<char>) -> bool {
    name.len() >= spec_template_suffix().len() && name.skip(
        name.len() - spec_template_suffix().len(),
    ) =~= spec_template_suffix()
}

/// What one template file scaffolds to: marked files lose the suffix and
/// have their placeholder rendered; the rest are copied as they are.
pub open spec fn spec_applied(
    name: Seq<char>,
    contents: Seq<char>,
    project: Seq<char>,
) -> (Seq<char>, Seq<char>) {
    if spec_is_template_name(name) {
        (
            name.take(name.len() - spec_template_suffix().len()),
            str_replace_spec(contents, "{{name}}"@, project),
        )
    } else {
        (name, contents)
    }
}

/// Applies a template to a project name: for every template file, the file
/// name and contents to write.
pub fn apply_template(entries: &Vec<TemplateEntry>, project_name: &str) -> (r: Vec<
    (String, String),
>)
    ensures
        r@.len() == entries@.len(),
        forall|i: int|
            0 <= i < r@.len() ==> (#[trigger] r.deep_view()[i]) == spec_applied(
                entries@[i].name@,
                entries@[i].contents@,
                project_name@,
            ),
{
    let mut out: Vec<(String, String)> = Vec::new();
    let mut i: usize = 0;
    while i < entries.len()
        invariant
            i <= entries.len(),
            out@.len() == i,
            forall|l: int|
                0 <= l < i ==> (#[trigger] out.deep_view()[l]) == spec_applied(
                    entries@[l].name@,
                    entries@[l].contents@,
                    project_name@,
                ),
        decreases entries.len() - i,
    {
        let entry = &entries[i];
        let rendered: (String, String) = match template_target_name(entry.name.as_str()) {
            Some(stem) => (stem, render_template_content(entry.contents.as_str(), project_name)),
            None => (entry.name.deep_clone(), entry.contents.deep_clone()),
        };
        let ghost before = out.deep_view();
        out.push(rendered);
        proof {
            assert forall|l: int| 0 <= l < out@.len() implies (#[trigger] out.deep_view()[l])
                == spec_applied(entries@[l].name@, entries@[l].contents@, project_name@) by {
                if l < before.len() {
                    assert(out@[l] == out@.subrange(0, out@.len() - 1)[l]);
                    assert(out.deep_view()[l] == before[l]);
                }
            }
        }
        i += 1;
    }
    out
}

} // verus!
