//! Template rendering for route setup commands. The rendering itself is done
//! by the handlebars engine and is only named here; the parameter document
//! handed to it — a JSON object carrying the source and target addresses and
//! the resolved name with its labels — is built by verified code, character
//! by character.

use vstd::prelude::*;
use vstd::string::*;
use crate::text::{json_string_seq, push_json_string, decimal_seq, push_decimal};

verus! {

/// What rendering `template` against the JSON parameter text `data` yields:
/// the rendered text, or nothing when the template does not parse, the data
/// is not valid JSON, or rendering fails. For fixed texts the engine's
/// outcome depends on the two texts alone. Meaningful only for templates
/// without decorator openings (`has_decorator`): only those are ever handed
/// to the engine.
pub uninterp spec fn rendered_of(template: Seq<char>, data: Seq<char>) -> Option<Seq<char>>;

/// A character the engine's grammar lets stand between `{{` and the marker
/// of what the tag is: whitespace, the whitespace-control tilde, and the
/// block marker.
pub open spec fn skippable_char(c: char) -> bool {
    c == ' ' || c == '\t' || c == '\n' || c == '\r' || c == '~' || c == '#'
}

/// `t` opens a decorator at `i`: a `{{` whose first following character
/// outside the skippable set is `*`, at `j`. This covers every decorator
/// form the engine's grammar admits — `{{*..}}` and `{{#*..}}` blocks, with
/// tildes and any interleaved whitespace — and a little more.
pub open spec fn decorator_open_at(t: Seq<char>, i: int, j: int) -> bool {
    &&& 0 <= i
    &&& i + 1 < j < t.len()
    &&& t[i] == '{'
    &&& t[i + 1] == '{'
    &&& forall|k: int| i + 2 <= k < j ==> skippable_char(#[trigger] t[k])
    &&& t[j] == '*'
}

/// Whether `t` opens a decorator anywhere. Decorators — above all the
/// inline partials they can define — are kept away from the engine: two
/// inline partials referring to each other recurse without bound when
/// rendered, and the engine has no depth limit on that path.
pub open spec fn has_decorator(t: Seq<char>) -> bool {
    exists|i: int, j: int| decorator_open_at(t, i, j)
}

fn is_skippable(c: char) -> (r: bool)
    ensures
        r == skippable_char(c),
{
    c == ' ' || c == '\t' || c == '\n' || c == '\r' || c == '~' || c == '#'
}

/// Whether `s` opens a decorator anywhere (`has_decorator`).
pub fn contains_decorator(s: &str) -> (r: bool)
    ensures
        r == has_decorator(s@),
{
    let n = s.unicode_len();
    let mut i: usize = 0;
    while i < n
        invariant
            n == s@.len(),
            0 <= i <= n,
            forall|a: int, b: int| a < i ==> !decorator_open_at(s@, a, b),
        decreases n - i,
    {
        if i + 1 < n && s.get_char(i) == '{' && s.get_char(i + 1) == '{' {
            let mut j = i + 2;
            while j < n && is_skippable(s.get_char(j))
                invariant
                    n == s@.len(),
                    i + 2 <= j <= n,
                    forall|k: int| i + 2 <= k < j ==> skippable_char(#[trigger] s@[k]),
                decreases n - j,
            {
                j = j + 1;
            }
            if j < n && s.get_char(j) == '*' {
                proof {
                    assert(decorator_open_at(s@, i as int, j as int));
                }
                return true;
            }
            proof {
                assert forall|b: int| !decorator_open_at(s@, i as int, b) by {
                    if i + 1 < b < n {
                        if b < j {
                            assert(s@[b] != '*');
                        } else if b == j {
                        } else {
                            assert(j < b);
                            assert(j < n);
                            assert(!skippable_char(s@[j as int]));
                        }
                    }
                }
            }
        }
        i = i + 1;
    }
    false
}

/// The rendering outcome of one template text as the library takes it: a
/// template that opens a decorator is refused outright; any other is
/// rendered by the engine (`rendered_of`).
pub open spec fn template_render_outcome(template: Seq<char>, data: Seq<char>) -> Option<
    Seq<char>,
> {
    if has_decorator(template) {
        None
    } else {
        rendered_of(template, data)
    }
}

/// Relies on `serde_json::from_str` to read `data_json` as a JSON value and
/// on `handlebars::Handlebars::new` / `Registry::render_template` to render
/// `template` against it with a fresh default registry; both steps compute
/// from the two texts alone, so the outcome is `rendered_of` of them. The
/// precondition keeps decorator templates out: mutually recursive inline
/// partials (`{{#*inline ..}}` blocks invoking one another) recurse without
/// bound in the engine and abort by stack overflow. (Parsing very deeply
/// nested blocks also recurses; that stays proportional to the template's
/// length.)
#[verifier::external_body]
fn render_str(template: &str, data_json: &String) -> (r: Option<String>)
    requires
        !has_decorator(template@),
    ensures
        match (r, rendered_of(template@, data_json@)) {
            (Some(s), Some(t)) => s@ == t,
            (None, None) => true,
            _ => false,
        },
{
    let data: serde_json::Value = serde_json::from_str(data_json.as_str()).ok()?;
    handlebars::Handlebars::new().render_template(template, &data).ok()
}

/// Renders `template` against `data_json`, refusing decorator templates
/// before the engine sees them.
pub(crate) fn render_checked(template: &str, data_json: &String) -> (r: Option<String>)
    ensures
        match (r, template_render_outcome(template@, data_json@)) {
            (Some(s), Some(t)) => s@ == t,
            (None, None) => true,
            _ => false,
        },
{
    if contains_decorator(template) {
        None
    } else {
        render_str(template, data_json)
    }
}

/// The `"parts"` object entries from index `i` on: each label under its
/// position as a decimal key, comma-separated.
pub open spec fn parts_entries_seq(parts: Seq<Seq<char>>, i: int) -> Seq<char>
    decreases parts.len() - i,
{
    if i < 0 || i >= parts.len() {
        Seq::empty()
    } else {
        let entry = json_string_seq(decimal_seq(i as nat)) + seq![':'] + json_string_seq(parts[i]);
        if i + 1 < parts.len() {
            entry + seq![','] + parts_entries_seq(parts, i + 1)
        } else {
            entry
        }
    }
}

/// The complete parameter document: `source.ip`, `target.ip`, `url.full` and
/// `url.parts` (labels keyed by their position, `0` the rightmost).
pub open spec fn params_json_seq(
    source_ip: Seq<char>,
    target_ip: Seq<char>,
    full: Seq<char>,
    parts: Seq<Seq<char>>,
) -> Seq<char> {
    "{\"source\":{\"ip\":"@ + json_string_seq(source_ip) + "},\"target\":{\"ip\":"@
        + json_string_seq(target_ip) + "},\"url\":{\"full\":"@ + json_string_seq(full)
        + ",\"parts\":{"@ + parts_entries_seq(parts, 0) + "}}}"@
}

/// Appends the `"parts"` entries from index `i` on.
fn push_parts_from(out: &mut String, parts: &Vec<String>, i: usize)
    requires
        i <= parts@.len(),
    ensures
        final(out)@ == old(out)@ + parts_entries_seq(parts.deep_view(), i as int),
    decreases parts@.len() - i,
{
    if i < parts.len() {
        let mut key = String::new();
        push_decimal(&mut key, i);
        push_json_string(out, key.as_str());
        out.push(':');
        push_json_string(out, parts[i].as_str());
        proof {
            assert(parts.deep_view()[i as int] == parts@[i as int]@);
        }
        if i + 1 < parts.len() {
            out.push(',');
            push_parts_from(out, parts, i + 1);
        }
        proof {
            assert(final(out)@ =~= old(out)@ + parts_entries_seq(parts.deep_view(), i as int));
        }
    } else {
        proof {
            assert(final(out)@ =~= old(out)@ + parts_entries_seq(parts.deep_view(), i as int));
        }
    }
}

/// Builds the parameter document from the two address texts, the full name
/// and its labels (rightmost first).
pub fn build_params_json(
    source_ip: &String,
    target_ip: &String,
    full: &str,
    parts: &Vec<String>,
) -> (r: String)
    ensures
        r@ == params_json_seq(source_ip@, target_ip@, full@, parts.deep_view()),
{
    let mut out = String::new();
    out.append("{\"source\":{\"ip\":");
    push_json_string(&mut out, source_ip.as_str());
    out.append("},\"target\":{\"ip\":");
    push_json_string(&mut out, target_ip.as_str());
    out.append("},\"url\":{\"full\":");
    push_json_string(&mut out, full);
    out.append(",\"parts\":{");
    push_parts_from(&mut out, parts, 0);
    out.append("}}}");
    proof {
        assert(out@ =~= params_json_seq(source_ip@, target_ip@, full@, parts.deep_view()));
    }
    out
}

} // verus!
