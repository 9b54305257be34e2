//! Secret masking for log output shown in the UI.
use vstd::prelude::*;

use crate::config::{env_lookup, lookup_env};
use crate::log_stream::{masked_values, string_views};
use crate::text::{chars_of, dec, extend_str, push_dec, string_of};

verus! {

/// The message of the error that `regex::Regex::new(pattern)` reports, or
/// `None` when the pattern compiles.
pub uninterp spec fn regex_error_text(pattern: Seq<char>) -> Option<Seq<char>>;

/// `regex::Regex::new(pattern)`, keeping the `Display` text of its error.
/// Claims only that the result is the named error text of `pattern`.
#[verifier::external_body]
fn regex_compile_error(pattern: &str) -> (r: Option<String>)
    ensures
        r matches Some(e) ==> regex_error_text(pattern@) == Some(e@),
        r is None ==> regex_error_text(pattern@) is None,
{
    regex::Regex::new(pattern).err().map(|e| e.to_string())
}

/// `text` with every match of `pattern` replaced by `***`, as
/// `Regex::new(pattern)` then `Regex::replace_all(text, "***")` give it;
/// `None` when the pattern does not compile.
pub uninterp spec fn regex_replaced(pattern: Seq<char>, text: Seq<char>) -> Option<Seq<char>>;

/// `regex::Regex::new(pattern)` then `Regex::replace_all(text, "***")`.
/// Claims only that the result is the named replacement of `pattern` in
/// `text`.
#[verifier::external_body]
fn regex_mask_all(pattern: &str, text: &str) -> (r: Option<String>)
    ensures
        r matches Some(t) ==> regex_replaced(pattern@, text@) == Some(t@),
        r is None ==> regex_replaced(pattern@, text@) is None,
{
    match regex::Regex::new(pattern) {
        Ok(re) => Some(re.replace_all(text, "***").into_owned()),
        Err(_) => None,
    }
}

/// Masking configuration: environment variables whose values, and regex
/// patterns whose matches, are hidden in log output.
#[derive(Debug)]
pub struct MaskingConfig {
    /// Env var names whose values should be masked in log output.
    pub env_vars: Vec<String>,
    /// Regex patterns whose matches should be masked in log output.
    pub patterns: Vec<String>,
    /// The patterns in use, set by [`MaskingConfig::compile`] once every
    /// pattern compiles.
    pub compiled_patterns: Vec<String>,
}

/// The error message for pattern number `i`.
pub open spec fn pattern_error(i: nat, pattern: Seq<char>, err: Seq<char>) -> Seq<char> {
    seq!['m', 'a', 's', 'k', 'i', 'n', 'g', '.', 'p', 'a', 't', 't', 'e', 'r', 'n', 's', '['] + dec(i)
        + seq![']', ' ', '\''] + pattern + seq!['\'', ':', ' '] + err
}

/// One message per pattern that does not compile, in order.
pub open spec fn compile_errors(patterns: Seq<Seq<char>>) -> Seq<Seq<char>>
    decreases patterns.len(),
{
    if patterns.len() == 0 {
        seq![]
    } else {
        let i = (patterns.len() - 1) as nat;
        compile_errors(patterns.drop_last()) + match regex_error_text(patterns.last()) {
            Some(e) => seq![pattern_error(i, patterns.last(), e)],
            None => seq![],
        }
    }
}

/// The value a masked variable has: from the hook's environment if set
/// there, else from the process environment.
pub open spec fn resolved_value(
    name: Seq<char>,
    hook_env: Seq<(String, String)>,
    system_env: Seq<(String, String)>,
) -> Option<Seq<char>> {
    match env_lookup(hook_env, name) {
        Some(v) => Some(v),
        None => env_lookup(system_env, name),
    }
}

/// The non-empty values of the masked variables, in configuration order.
pub open spec fn resolved_secrets(
    names: Seq<Seq<char>>,
    hook_env: Seq<(String, String)>,
    system_env: Seq<(String, String)>,
) -> Seq<Seq<char>>
    decreases names.len(),
{
    if names.len() == 0 {
        seq![]
    } else {
        let rest = resolved_secrets(names.drop_last(), hook_env, system_env);
        match resolved_value(names.last(), hook_env, system_env) {
            Some(v) => if v.len() > 0 {
                rest.push(v)
            } else {
                rest
            },
            None => rest,
        }
    }
}

/// The secrets are exactly the non-empty values of the masked variables,
/// each looked up in the hook's environment first and, only when the hook
/// does not set it, in the process environment, whatever else either
/// environment holds.
pub proof fn secrets_fall_back_to_the_process_environment(
    names: Seq<Seq<char>>,
    hook_env: Seq<(String, String)>,
    system_env: Seq<(String, String)>,
    v: Seq<char>,
)
    ensures
        resolved_secrets(names, hook_env, system_env).contains(v) <==> v.len() > 0 && exists|i: int|
            0 <= i < names.len() && (env_lookup(hook_env, #[trigger] names[i]) == Some(v) || (env_lookup(
                hook_env,
                names[i],
            ) is None && env_lookup(system_env, names[i]) == Some(v))),
    decreases names.len(),
{
    if names.len() > 0 {
        let init = names.drop_last();
        let last = names.last();
        secrets_fall_back_to_the_process_environment(init, hook_env, system_env, v);
        let rest = resolved_secrets(init, hook_env, system_env);
        assert(names[names.len() - 1] == last);
        assert forall|i: int| 0 <= i < init.len() implies init[i] == names[i] by {}
        let here = env_lookup(hook_env, last) == Some(v) || (env_lookup(hook_env, last) is None && env_lookup(
            system_env,
            last,
        ) == Some(v));
        if resolved_secrets(names, hook_env, system_env).contains(v) {
            if !rest.contains(v) {
                let r = resolved_secrets(names, hook_env, system_env);
                let c = choose|c: int| 0 <= c < r.len() && r[c] == v;
                assert(r != rest);
                assert(c == rest.len());
                assert(here);
            }
        }
        if v.len() > 0 && here {
            let r = resolved_secrets(names, hook_env, system_env);
            assert(r == rest.push(v));
            assert(r[rest.len() as int] == v);
        }
        if v.len() > 0 && exists|i: int| 0 <= i < init.len() && (env_lookup(hook_env, #[trigger] init[i]) == Some(v) || (
        env_lookup(hook_env, init[i]) is None && env_lookup(system_env, init[i]) == Some(v))) {
            let r = resolved_secrets(names, hook_env, system_env);
            let c = choose|c: int| 0 <= c < rest.len() && rest[c] == v;
            assert(r[c] == v);
        }
        if v.len() > 0 && exists|i: int| 0 <= i < names.len() && (env_lookup(hook_env, #[trigger] names[i]) == Some(v) || (
        env_lookup(hook_env, names[i]) is None && env_lookup(system_env, names[i]) == Some(v))) {
            let i = choose|i: int| 0 <= i < names.len() && (env_lookup(hook_env, #[trigger] names[i]) == Some(v) || (
            env_lookup(hook_env, names[i]) is None && env_lookup(system_env, names[i]) == Some(v)));
            if i < init.len() {
                assert(init[i] == names[i]);
            }
        }
    }
}

/// `text` after each pattern, in order, has masked its matches; a pattern
/// that does not compile changes nothing.
pub open spec fn patterns_applied(text: Seq<char>, patterns: Seq<Seq<char>>) -> Seq<char>
    decreases patterns.len(),
{
    if patterns.len() == 0 {
        text
    } else {
        let before = patterns_applied(text, patterns.drop_last());
        match regex_replaced(patterns.last(), before) {
            Some(t) => t,
            None => before,
        }
    }
}

/// What the log viewer shows of `text`: secret values masked first, then
/// pattern matches.
pub open spec fn masked_output(
    text: Seq<char>,
    config: MaskingConfig,
    hook_env: Seq<(String, String)>,
    system_env: Seq<(String, String)>,
) -> Seq<char> {
    patterns_applied(
        masked_values(text, resolved_secrets(string_views(config.env_vars@), hook_env, system_env)),
        string_views(config.compiled_patterns@),
    )
}

impl MaskingConfig {
    /// Check that every pattern compiles; on success the patterns become the
    /// ones in use. Returns an error listing all invalid patterns.
    pub fn compile(&mut self) -> (r: Result<(), Vec<String>>)
        ensures
            r is Ok <==> compile_errors(string_views(old(self).patterns@)).len() == 0,
            r matches Err(es) ==> string_views(es@) == compile_errors(string_views(old(self).patterns@)),
            final(self).env_vars == old(self).env_vars,
            final(self).patterns == old(self).patterns,
            r is Ok ==> final(self).compiled_patterns@ == old(self).patterns@,
            r is Err ==> final(self).compiled_patterns == old(self).compiled_patterns,
    {
        let mut errors: Vec<String> = Vec::new();
        let ghost pv = string_views(self.patterns@);
        let mut i: usize = 0;
        while i < self.patterns.len()
            invariant
                i <= self.patterns@.len(),
                pv == string_views(self.patterns@),
                string_views(errors@) == compile_errors(pv.take(i as int)),
            decreases self.patterns@.len() - i,
        {
            let pattern = &self.patterns[i];
            assert(pv.take(i + 1).drop_last() == pv.take(i as int));
            assert(pv.take(i + 1).last() == pattern@);
            match regex_compile_error(pattern.as_str()) {
                Some(e) => {
                    let mut m: Vec<char> = Vec::new();
                    extend_str(&mut m, "masking.patterns[");
                    push_dec(&mut m, i as u128);
                    extend_str(&mut m, "] '");
                    extend_str(&mut m, pattern.as_str());
                    extend_str(&mut m, "': ");
                    extend_str(&mut m, e.as_str());
                    proof {
                        reveal_strlit("masking.patterns[");
                        reveal_strlit("] '");
                        reveal_strlit("': ");
                    }
                    assert(m@ == pattern_error(i as nat, pattern@, e@));
                    let ghost before = errors@;
                    errors.push(string_of(m.as_slice()));
                    assert(string_views(errors@) == string_views(before).push(m@));
                },
                None => {
                    assert(string_views(errors@) == compile_errors(pv.take(i + 1)));
                },
            }
            i = i + 1;
        }
        assert(pv.take(self.patterns@.len() as int) == pv);
        if errors.len() == 0 {
            self.compiled_patterns = self.patterns.clone();
            Ok(())
        } else {
            Err(errors)
        }
    }
}

/// The non-empty values of the masked variables: each looked up in the
/// hook's environment first, then in `system_env` (the process environment
/// as read by the caller).
pub fn stream_mask_secret_values(
    masking: &MaskingConfig,
    hook_env: &[(String, String)],
    system_env: &[(String, String)],
) -> (r: Vec<String>)
    ensures
        string_views(r@) == resolved_secrets(string_views(masking.env_vars@), hook_env@, system_env@),
{
    let ghost names = string_views(masking.env_vars@);
    let mut out: Vec<String> = Vec::new();
    let mut k: usize = 0;
    while k < masking.env_vars.len()
        invariant
            k <= masking.env_vars@.len(),
            names == string_views(masking.env_vars@),
            string_views(out@) == resolved_secrets(names.take(k as int), hook_env@, system_env@),
        decreases masking.env_vars@.len() - k,
    {
        let name = masking.env_vars[k].as_str();
        assert(names.take(k + 1).drop_last() == names.take(k as int));
        assert(names.take(k + 1).last() == name@);
        let value = match lookup_env(hook_env, name) {
            Some(v) => Some(v),
            None => lookup_env(system_env, name),
        };
        match value {
            Some(v) => {
                if !v.as_str().is_empty() {
                    let ghost before = out@;
                    out.push(v);
                    assert(string_views(out@) == string_views(before).push(out@.last()@));
                }
            },
            None => {},
        }
        k = k + 1;
    }
    assert(names.take(masking.env_vars@.len() as int) == names);
    out
}

/// Replace secret values in `text` with `***`.
///
/// Masking order:
/// 1. Env var values (literal string replacement)
/// 2. Regex patterns (in config order)
///
/// For env var resolution, `hook_env` is checked first, then `system_env`,
/// the process environment as read by the caller. This matches executor
/// behavior where hook env overrides system env.
pub fn mask_secrets(
    text: &str,
    config: &MaskingConfig,
    hook_env: &[(String, String)],
    system_env: &[(String, String)],
) -> (r: String)
    ensures
        r@ == masked_output(text@, *config, hook_env@, system_env@),
{
    let secrets = stream_mask_secret_values(config, hook_env, system_env);
    let cs = chars_of(text);
    let masked = crate::log_stream::mask_chars(cs.as_slice(), secrets.as_slice());
    let mut result = string_of(masked.as_slice());
    let ghost pv = string_views(config.compiled_patterns@);
    let ghost start = result@;
    let mut k: usize = 0;
    while k < config.compiled_patterns.len()
        invariant
            k <= config.compiled_patterns@.len(),
            pv == string_views(config.compiled_patterns@),
            result@ == patterns_applied(start, pv.take(k as int)),
        decreases config.compiled_patterns@.len() - k,
    {
        let p = config.compiled_patterns[k].as_str();
        assert(pv.take(k + 1).drop_last() == pv.take(k as int));
        assert(pv.take(k + 1).last() == p@);
        match regex_mask_all(p, result.as_str()) {
            Some(t) => {
                result = t;
            },
            None => {},
        }
        k = k + 1;
    }
    assert(pv.take(config.compiled_patterns@.len() as int) == pv);
    result
}

} // verus!
