//! Decisions of the apply command: the configuration it reads, which items
//! it applies, which scheme it picks, and the command line of each hook.
//! Reading and writing files and running the hooks happen outside.

use vstd::prelude::*;
use vstd::string::StringExecFns;
use rand::seq::SliceRandom;
use crate::config::ConfigItem;
use crate::text::{chars_of, is_whitespace, push_char, push_str, without_white_space};

verus! {

#[derive(Clone, Copy, Debug, PartialEq, Eq, Structural)]
pub enum ApplyError {
    NoItems,
    ShellWithoutPlaceholder,
    SchemeNotFound,
    HookParseError,
    NoCurrentScheme,
}

/// The shell template used when the configuration names none: `{}` stands
/// for the hook's command, so by default the command's own words are run
/// directly, without a shell.
pub const DEFAULT_SHELL: &'static str = "{}";

/// The subtemplate used when an item names none, and the name that asks
/// for a subtemplate named after the scheme.
pub const DEFAULT_SUBTEMPLATE: &'static str = "default";

pub const SCHEME_SUBTEMPLATE: &'static str = "{scheme}";

/// Whether `s` holds `{}`.
pub open spec fn has_placeholder(s: Seq<char>) -> bool {
    exists|i: int| 0 <= i < s.len() - 1 && s[i] == '{' && #[trigger] s[i + 1] == '}'
}

/// `s` with each `{}`, scanned left to right, replaced by `cmd`.
pub open spec fn substitute(s: Seq<char>, cmd: Seq<char>) -> Seq<char>
    decreases s.len(),
{
    if s.len() == 0 {
        seq![]
    } else if s.len() >= 2 && s[0] == '{' && s[1] == '}' {
        cmd + substitute(s.skip(2), cmd)
    } else {
        seq![s[0]] + substitute(s.skip(1), cmd)
    }
}

/// The items to apply: those under `items`, then those under the older
/// `item` key.
pub fn all_items(config_items: Option<Vec<ConfigItem>>, legacy: Option<Vec<ConfigItem>>) -> (r:
    Result<Vec<ConfigItem>, ApplyError>)
    ensures
        ({
            let all = match config_items {
                Some(v) => v@,
                None => seq![],
            } + match legacy {
                Some(v) => v@,
                None => seq![],
            };
            match r {
                Ok(v) => v@ == all && all.len() > 0,
                Err(e) => e == ApplyError::NoItems && all.len() == 0,
            }
        }),
{
    let mut all = match config_items {
        Some(v) => v,
        None => Vec::new(),
    };
    let mut rest = match legacy {
        Some(v) => v,
        None => Vec::new(),
    };
    all.append(&mut rest);
    if all.len() == 0 {
        Err(ApplyError::NoItems)
    } else {
        Ok(all)
    }
}

/// The configured shell template, or the default.
pub open spec fn shell_text(shell: Option<String>) -> Seq<char> {
    match shell {
        Some(s) => s@,
        None => DEFAULT_SHELL@,
    }
}

/// The shell template for hooks: the configured one or the default; it
/// must hold `{}`.
pub fn shell_template(shell: Option<String>) -> (r: Result<String, ApplyError>)
    ensures
        match r {
            Ok(t) => t@ == shell_text(shell) && has_placeholder(shell_text(shell)),
            Err(e) => e == ApplyError::ShellWithoutPlaceholder && !has_placeholder(
                shell_text(shell),
            ),
        },
{
    let s = match shell {
        Some(s) => s,
        None => String::from_str(DEFAULT_SHELL),
    };
    assert(s@ == shell_text(shell));
    let cs = chars_of(s.as_str());
    let mut i: usize = 0;
    while i < cs.len()
        invariant
            cs@ == s@,
            s@ == shell_text(shell),
            i <= cs@.len(),
            forall|j: int| 0 <= j < i && j < cs@.len() - 1 ==> !(cs@[j] == '{' && #[trigger] cs@[j + 1] == '}'),
        decreases cs@.len() - i,
    {
        if i + 1 < cs.len() && cs[i] == '{' && cs[i + 1] == '}' {
            assert(s@[i as int] == '{' && s@[i + 1] == '}');
            assert(has_placeholder(s@));
            return Ok(s);
        }
        i = i + 1;
    }
    Err(ApplyError::ShellWithoutPlaceholder)
}

/// The command line of a hook: the shell template with each `{}` replaced
/// by the command.
pub fn hook_command(shell: &str, command: &str) -> (r: String)
    ensures
        r@ == substitute(shell@, command@),
{
    let cs = chars_of(shell);
    let mut out = String::new();
    let mut i: usize = 0;
    assert(cs@.skip(0) =~= cs@);
    while i < cs.len()
        invariant
            cs@ == shell@,
            i <= cs@.len(),
            out@ + substitute(cs@.skip(i as int), command@) == substitute(shell@, command@),
        decreases cs@.len() - i,
    {
        let ghost u = cs@.skip(i as int);
        if i + 1 < cs.len() && cs[i] == '{' && cs[i + 1] == '}' {
            push_str(&mut out, command);
            assert(u.skip(2) =~= cs@.skip(i + 2));
            i = i + 2;
        } else {
            push_char(&mut out, cs[i]);
            assert(u.skip(1) =~= cs@.skip(i + 1));
            i = i + 1;
        }
        assert(out@ + substitute(cs@.skip(i as int), command@) =~= substitute(shell@, command@));
    }
    assert(cs@.skip(i as int) =~= Seq::<char>::empty());
    assert(out@ =~= substitute(shell@, command@));
    out
}

#[verifier::external_type_specification]
#[verifier::external_body]
pub struct ExShellParseError(shell_words::ParseError);

/// Relies on `shell_words::split`: the words of a command line under POSIX
/// shell quoting, which depend on its text alone; none when the quoting is
/// unbalanced.
pub uninterp spec fn shell_split(s: Seq<char>) -> Option<Seq<Seq<char>>>;

/// Relies on `shell_words::split` to break a command line into words.
#[verifier::external_body]
fn split_words(s: &str) -> (r: Result<Vec<String>, shell_words::ParseError>)
    ensures
        r is Ok <==> shell_split(s@) is Some,
        r matches Ok(v) ==> v@.map_values(|w: String| w@) == shell_split(s@)->0,
{
    shell_words::split(s)
}

/// The program and arguments a hook runs: none when the item has no hook or
/// its command line has no words.
pub fn hook_argv(shell: &str, command: &Option<String>) -> (r: Result<
    Option<Vec<String>>,
    ApplyError,
>)
    ensures
        match command {
            None => r == Ok::<Option<Vec<String>>, ApplyError>(None),
            Some(c) => match shell_split(substitute(shell@, c@)) {
                None => r == Err::<Option<Vec<String>>, ApplyError>(ApplyError::HookParseError),
                Some(words) => match r {
                    Ok(Some(v)) => words.len() > 0 && v@.map_values(|w: String| w@) == words,
                    Ok(None) => words.len() == 0,
                    Err(_) => false,
                },
            },
        },
{
    match command {
        None => Ok(None),
        Some(c) => {
            let full = hook_command(shell, c.as_str());
            match split_words(full.as_str()) {
                Ok(words) => if words.len() == 0 {
                    Ok(None)
                } else {
                    Ok(Some(words))
                },
                Err(_) => Err(ApplyError::HookParseError),
            }
        },
    }
}

/// Whether an item's hook runs: always, except in light mode for a hook
/// marked as not light (items are light unless they say otherwise).
pub fn should_run_hook(light_mode: bool, item_light: Option<bool>) -> (r: bool)
    ensures
        r == (!light_mode || match item_light {
            Some(l) => l,
            None => true,
        }),
{
    let light = match item_light {
        Some(l) => l,
        None => true,
    };
    !light_mode || light
}

/// The subtemplate of an item: the one it names, or the default; an item
/// that names `{scheme}` gets the scheme's name when a subtemplate of that
/// name exists, the default otherwise.
pub fn subtemplate_name(configured: &Option<String>, scheme_name: &str, scheme_template_exists: bool) -> (r:
    String)
    ensures
        r@ == match configured {
            None => DEFAULT_SUBTEMPLATE@,
            Some(s) => if s@ == SCHEME_SUBTEMPLATE@ {
                if scheme_template_exists {
                    scheme_name@
                } else {
                    DEFAULT_SUBTEMPLATE@
                }
            } else {
                s@
            },
        },
{
    match configured {
        None => String::from_str(DEFAULT_SUBTEMPLATE),
        Some(s) => {
            if *s == String::from_str(SCHEME_SUBTEMPLATE) {
                if scheme_template_exists {
                    String::from_str(scheme_name)
                } else {
                    String::from_str(DEFAULT_SUBTEMPLATE)
                }
            } else {
                s.clone()
            }
        },
    }
}

/// Relies on `SliceRandom::choose` from rand with the thread-local
/// generator: none for an empty slice, otherwise one of its elements.
#[verifier::external_body]
fn choose_one(values: &Vec<String>) -> (r: Option<String>)
    ensures
        r is None <==> values@.len() == 0,
        r matches Some(v) ==> values@.contains(v),
{
    values.choose(&mut rand::thread_rng()).cloned()
}

/// Picks one of the scheme files found, at random.
pub fn random(values: Vec<String>) -> (r: Result<String, ApplyError>)
    ensures
        match r {
            Ok(v) => values@.contains(v),
            Err(e) => e == ApplyError::SchemeNotFound && values@.len() == 0,
        },
{
    match choose_one(&values) {
        Some(v) => Ok(v),
        None => Err(ApplyError::SchemeNotFound),
    }
}

/// The name of the last applied scheme, from the file that records it:
/// its text without white space, which must not be empty.
pub fn current_scheme_name(contents: &str) -> (r: Result<String, ApplyError>)
    ensures
        match r {
            Ok(name) => name@ == without_white_space(contents@) && name@.len() > 0,
            Err(e) => e == ApplyError::NoCurrentScheme && without_white_space(contents@).len()
                == 0,
        },
{
    let cs = chars_of(contents);
    let mut out = String::new();
    for i in 0..cs.len()
        invariant
            cs@ == contents@,
            out@ == without_white_space(cs@.take(i as int)),
    {
        assert(cs@.take(i + 1).drop_last() =~= cs@.take(i as int));
        if !is_whitespace(cs[i]) {
            push_char(&mut out, cs[i]);
        }
    }
    assert(cs@.take(cs@.len() as int) =~= cs@);
    if out.as_str().is_empty() {
        Err(ApplyError::NoCurrentScheme)
    } else {
        Ok(out)
    }
}

} // verus!
