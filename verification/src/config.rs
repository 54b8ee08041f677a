//! Uniform config-override discipline shared by every backend.
//!
//! Backends parse the configuration text that the coordinator forwards against
//! their own schema, then use these helpers so precedence (config over command
//! line) and unknown-field warnings look identical across every miner type.
use crate::text::same_text;
use vstd::prelude::*;
use vstd::std_specs::cmp::PartialEqSpec;
use vstd::string::*;

verus! {

/// A key that the shared session consumes, so that no backend warns about it.
pub open spec fn is_session_key(key: Seq<char>) -> bool {
    key == "num_sweeps"@
}

/// Whether the shared session consumes this key.
#[must_use]
pub fn session_consumes(key: &str) -> (consumed: bool)
    ensures
        consumed == is_session_key(key@),
{
    same_text(key, "num_sweeps")
}

/// Resolve one setting with `config > CLI` precedence.
///
/// A config that merely restates the command line's value changes nothing. The
/// second result says whether it did change something, which is worth a
/// warning.
#[must_use]
pub fn resolve_override<T: PartialEq>(cli: T, from_config: Option<T>) -> (resolved: (T, bool))
    ensures
        T::obeys_eq_spec() ==> resolved == match from_config {
            Some(value) => if value.eq_spec(&cli) {
                (cli, false)
            } else {
                (value, true)
            },
            None => (cli, false),
        },
        from_config is None ==> resolved == (cli, false),
        from_config matches Some(value) ==> resolved == (cli, false) || resolved == (value, true),
{
    match from_config {
        Some(value) => {
            if value == cli {
                (cli, false)
            } else {
                (value, true)
            }
        },
        None => (cli, false),
    }
}

/// What is said of an override: the setting by its name, and its values in text.
pub open spec fn override_text(name: Seq<char>, cli: Seq<char>, value: Seq<char>) -> Seq<char> {
    "config overrides "@ + name + ": "@ + cli + " -> "@ + value + " (from coordinator)"@
}

/// The warning for one setting, under the flag that [`resolve_override`] gave:
/// `cli` and `value` are the two values in text.
#[must_use]
pub fn override_warning(name: &str, cli: &str, value: &str, overridden: bool) -> (warning: Option<
    String,
>)
    ensures
        warning is Some <==> overridden,
        warning matches Some(text) ==> text@ == override_text(name@, cli@, value@),
{
    if !overridden {
        return None;
    }
    let mut text: String = "config overrides ".to_owned();
    text.append(name);
    text.append(": ");
    text.append(cli);
    text.append(" -> ");
    text.append(value);
    text.append(" (from coordinator)");
    Some(text)
}

/// Resolve one setting with `config > CLI` precedence. The name does not bear on
/// the value; it stands in the [`override_warning`].
#[must_use]
pub fn config_override<T: PartialEq>(_name: &str, cli: T, from_config: Option<T>) -> (value: T)
    ensures
        T::obeys_eq_spec() ==> value == match from_config {
            Some(given) => if given.eq_spec(&cli) {
                cli
            } else {
                given
            },
            None => cli,
        },
        from_config is None ==> value == cli,
        from_config matches Some(given) ==> value == cli || value == given,
{
    resolve_override(cli, from_config).0
}

/// What is said of a key that nothing recognizes.
pub open spec fn unknown_text(backend: Seq<char>, key: Seq<char>) -> Seq<char> {
    "config: unknown field '"@ + key + "' for "@ + backend + " (ignored)"@
}

/// The warnings for the first `n` of these keys.
pub open spec fn unknown_texts(backend: Seq<char>, keys: Seq<String>, n: nat) -> Seq<Seq<char>>
    decreases n,
{
    if n == 0 {
        Seq::empty()
    } else {
        let before = unknown_texts(backend, keys, (n - 1) as nat);
        if is_session_key(keys[n - 1]@) {
            before
        } else {
            before.push(unknown_text(backend, keys[n - 1]@))
        }
    }
}

/// One warning per unrecognized config key. The field is ignored, and the
/// warning surfaces typos rather than silently dropping them.
pub fn warn_unknown_fields(backend: &str, keys: &[String]) -> (warnings: Vec<String>)
    ensures
        crate::message::texts(warnings@) == unknown_texts(backend@, keys@, keys@.len()),
{
    let mut warnings: Vec<String> = Vec::new();
    let mut i: usize = 0;
    assert(crate::message::texts(warnings@) =~= Seq::empty());
    while i < keys.len()
        invariant
            i <= keys@.len(),
            crate::message::texts(warnings@) == unknown_texts(backend@, keys@, i as nat),
        decreases keys@.len() - i,
    {
        if !session_consumes(keys[i].as_str()) {
            let mut text: String = "config: unknown field '".to_owned();
            text.append(keys[i].as_str());
            text.append("' for ");
            text.append(backend);
            text.append(" (ignored)");
            let ghost before = warnings@;
            warnings.push(text);
            assert(crate::message::texts(warnings@) =~= crate::message::texts(before).push(
                unknown_text(backend@, keys@[i as int]@),
            ));
        }
        i += 1;
    }
    warnings
}

proof fn lemma_warned_keys(backend: Seq<char>, keys: Seq<String>, n: nat)
    requires
        n <= keys.len(),
    ensures
        unknown_texts(backend, keys, n) == keys.take(n as int).filter(
            |key: String| key@ != "num_sweeps"@,
        ).map_values(
            |key: String| "config: unknown field '"@ + key@ + "' for "@ + backend + " (ignored)"@,
        ),
    decreases n,
{
    reveal(Seq::filter);
    let own = |key: String| key@ != "num_sweeps"@;
    let said = |key: String|
        "config: unknown field '"@ + key@ + "' for "@ + backend + " (ignored)"@;
    if n == 0 {
        assert(keys.take(0).filter(own).map_values(said) =~= Seq::empty());
    } else {
        lemma_warned_keys(backend, keys, (n - 1) as nat);
        let (more, fewer) = (keys.take(n as int), keys.take(n - 1));
        assert(more.drop_last() =~= fewer);
        if own(keys[n - 1]) {
            assert(more.filter(own) == fewer.filter(own).push(keys[n - 1]));
            assert(more.filter(own).map_values(said) =~= fewer.filter(own).map_values(said).push(
                said(keys[n - 1]),
            ));
        }
    }
}

/// Every key that the session does not take itself is warned of, once each time
/// it stands there and in that order, and the session's own key never is.
pub proof fn law_every_other_key_is_warned_of(backend: Seq<char>, keys: Seq<String>)
    ensures
        unknown_texts(backend, keys, keys.len()) == keys.filter(
            |key: String| key@ != "num_sweeps"@,
        ).map_values(
            |key: String| "config: unknown field '"@ + key@ + "' for "@ + backend + " (ignored)"@,
        ),
{
    lemma_warned_keys(backend, keys, keys.len());
    assert(keys.take(keys.len() as int) =~= keys);
}

} // verus!
