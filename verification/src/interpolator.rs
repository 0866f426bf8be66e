//! Token interpolation for command templates: `{root}`, `{name}`,
//! `{version}`, `{description}`, the `[vars]` entries, and `{params}`.

use vstd::prelude::*;

use crate::models::{ResolvedConfig, ResolvedConfigV};
use crate::strutil::{push_char, push_str};

verus! {

/// What `str::replace` returns: every occurrence of the pattern replaced.
///
/// The exact shape of replacement is left to the standard library; the
/// result depends on the three strings alone.
pub uninterp spec fn str_replace_spec(s: Seq<char>, from: Seq<char>, to: Seq<char>) -> Seq<char>;

/// Replaces every occurrence of a pattern.
///
/// Relies on `str::replace`: the result is a pure function of the input, the
/// pattern and the replacement.
#[verifier::external_body]
fn replace_all(s: &str, from: &str, to: &str) -> (r: String)
    ensures
        r@ == str_replace_spec(s@, from@, to@),
{
    s.replace(from, to)
}

/// Replaces the `{{name}}` placeholder of template files.
pub(crate) fn replace_name_token(content: &str, project_name: &str) -> (r: String)
    ensures
        r@ == str_replace_spec(content@, "{{name}}"@, project_name@),
{
    replace_all(content, "{{name}}", project_name)
}

/// An optional string, or the empty string when absent.
pub open spec fn spec_or_empty(o: Option<Seq<char>>) -> Seq<char> {
    match o {
        Some(s) => s,
        None => Seq::empty(),
    }
}

/// One pass replacing the reserved tokens from the resolved configuration.
pub open spec fn spec_interpolate_reserved(cv: ResolvedConfigV, s: Seq<char>) -> Seq<char> {
    let s1 = str_replace_spec(s, "{root}"@, cv.project_root);
    let s2 = str_replace_spec(s1, "{name}"@, cv.qualified_name);
    let s3 = str_replace_spec(s2, "{version}"@, spec_or_empty(cv.version));
    str_replace_spec(s3, "{description}"@, spec_or_empty(cv.description))
}

/// One pass replacing `{key}` for every `[vars]` pair, in table order, each
/// value itself passed through the reserved tokens first.
pub open spec fn spec_vars_pass(
    cv: ResolvedConfigV,
    pairs: Seq<(Seq<char>, Seq<char>)>,
    s: Seq<char>,
) -> Seq<char>
    decreases pairs.len(),
{
    if pairs.len() == 0 {
        s
    } else {
        let token = seq!['{'] + pairs[0].0 + seq!['}'];
        let value = spec_interpolate_reserved(cv, pairs[0].1);
        spec_vars_pass(cv, pairs.drop_first(), str_replace_spec(s, token, value))
    }
}

/// The parameters joined with single spaces.
pub open spec fn spec_join_space(parts: Seq<Seq<char>>) -> Seq<char>
    decreases parts.len(),
{
    if parts.len() == 0 {
        Seq::empty()
    } else if parts.len() == 1 {
        parts[0]
    } else {
        spec_join_space(parts.drop_last()) + seq![' '] + parts.last()
    }
}

/// The full interpolation: reserved tokens, then `[vars]` tokens, then the
/// `{params}` token.
pub open spec fn spec_interpolate(
    cv: ResolvedConfigV,
    vars: Seq<(Seq<char>, Seq<char>)>,
    params: Seq<Seq<char>>,
    s: Seq<char>,
) -> Seq<char> {
    str_replace_spec(
        spec_vars_pass(cv, vars, spec_interpolate_reserved(cv, s)),
        "{params}"@,
        spec_join_space(params),
    )
}

/// Replaces the known tokens of command templates with values from a
/// resolved configuration and the invocation parameters.
pub struct Interpolator<'a> {
    config: &'a ResolvedConfig,
    params: &'a Vec<String>,
}

impl<'a> Interpolator<'a> {
    /// The configuration the interpolator reads.
    pub closed spec fn spec_config(&self) -> ResolvedConfig {
        *self.config
    }

    /// The invocation parameters, abstracted to sequences.
    pub closed spec fn spec_params(&self) -> Seq<Seq<char>> {
        self.params.deep_view()
    }

    /// Creates an interpolator over a resolved configuration.
    pub fn new(config: &'a ResolvedConfig, params: &'a Vec<String>) -> (r: Self)
        ensures
            r.spec_config() == *config,
            r.spec_params() == params.deep_view(),
    {
        Interpolator { config, params }
    }

    /// Interpolates one template: reserved tokens, `[vars]` tokens, then the
    /// parameters.
    pub fn interpolate(&self, input: &str) -> (r: String)
        ensures
            r@ == spec_interpolate(
                self.spec_config().deep_view(),
                self.spec_config().vars.kv(),
                self.spec_params(),
                input@,
            ),
    {
        let pass1 = self.interpolate_reserved(input);
        let pass2 = self.interpolate_vars(pass1.as_str());
        self.interpolate_params(pass2.as_str())
    }

    /// Replaces the reserved project tokens.
    fn interpolate_reserved(&self, input: &str) -> (r: String)
        ensures
            r@ == spec_interpolate_reserved(self.config.deep_view(), input@),
    {
        let s1 = replace_all(input, "{root}", self.config.project_root.as_str());
        let s2 = replace_all(s1.as_str(), "{name}", self.config.qualified_name.as_str());
        let version: &str = match &self.config.version {
            Some(v) => v.as_str(),
            None => "",
        };
        proof {
            reveal_strlit("");
            assert(version@ == spec_or_empty(self.config.deep_view().version));
        }
        let s3 = replace_all(s2.as_str(), "{version}", version);
        let description: &str = match &self.config.description {
            Some(d) => d.as_str(),
            None => "",
        };
        proof {
            reveal_strlit("");
            assert(description@ == spec_or_empty(self.config.deep_view().description));
        }
        replace_all(s3.as_str(), "{description}", description)
    }

    /// Replaces the `[vars]` tokens, each value passed through the reserved
    /// tokens first.
    fn interpolate_vars(&self, input: &str) -> (r: String)
        ensures
            r@ == spec_vars_pass(self.config.deep_view(), self.config.vars.kv(), input@),
    {
        let ghost cv = self.config.deep_view();
        let ghost pairs = self.config.vars.kv();
        let entries = self.config.vars.entries();
        let mut result = input.to_owned();
        let mut i: usize = 0;
        proof {
            assert(pairs.skip(0) =~= pairs);
        }
        while i < entries.len()
            invariant
                i <= entries.len(),
                pairs == self.config.vars.kv(),
                cv == self.config.deep_view(),
                entries.deep_view() == pairs,
                spec_vars_pass(cv, pairs, input@) == spec_vars_pass(
                    cv,
                    pairs.skip(i as int),
                    result@,
                ),
            decreases entries.len() - i,
        {
            proof {
                assert(pairs[i as int] == entries@[i as int].deep_view());
                assert(pairs.skip(i as int)[0] == pairs[i as int]);
                assert(pairs.skip(i as int).drop_first() =~= pairs.skip(i + 1));
            }
            let mut token = String::new();
            push_char(&mut token, '{');
            push_str(&mut token, entries[i].0.as_str());
            push_char(&mut token, '}');
            proof {
                assert(token@ =~= seq!['{'] + pairs[i as int].0 + seq!['}']);
            }
            let value = self.interpolate_reserved(entries[i].1.as_str());
            result = replace_all(result.as_str(), token.as_str(), value.as_str());
            i += 1;
        }
        proof {
            assert(pairs.skip(entries@.len() as int) =~= Seq::<(Seq<char>, Seq<char>)>::empty());
        }
        result
    }

    /// Replaces `{params}` with the space-joined parameters.
    fn interpolate_params(&self, input: &str) -> (r: String)
        ensures
            r@ == str_replace_spec(input@, "{params}"@, spec_join_space(self.params.deep_view())),
    {
        let joined = join_space(self.params);
        replace_all(input, "{params}", joined.as_str())
    }
}

/// Joins strings with single spaces.
pub fn join_space(parts: &Vec<String>) -> (r: String)
    ensures
        r@ == spec_join_space(parts.deep_view()),
{
    let ghost all = parts.deep_view();
    let mut r = String::new();
    let mut i: usize = 0;
    proof {
        assert(all.take(0) =~= Seq::<Seq<char>>::empty());
        assert(r@ =~= spec_join_space(all.take(0)));
    }
    while i < parts.len()
        invariant
            i <= parts.len(),
            all == parts.deep_view(),
            r@ == spec_join_space(all.take(i as int)),
        decreases parts.len() - i,
    {
        if i > 0 {
            push_str(&mut r, " ");
            proof {
                reveal_strlit(" ");
            }
        }
        push_str(&mut r, parts[i].as_str());
        proof {
            let prefix = all.take(i as int);
            let next = all.take(i + 1);
            assert(next.drop_last() =~= prefix);
            assert(next.last() == all[i as int]);
            if i > 0 {
                assert(" "@ =~= seq![' ']) by {
                    reveal_strlit(" ");
                }
                assert(r@ =~= spec_join_space(next));
            } else {
                assert(next =~= seq![all[0]]);
                assert(r@ =~= spec_join_space(next));
            }
        }
        i += 1;
    }
    proof {
        assert(all.take(parts.len() as int) =~= all);
    }
    r
}

} // verus!
