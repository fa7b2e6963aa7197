//! Where the planner keeps its configuration and its schedules.
use crate::error::TimaruError;
use crate::text::push_char;
use vstd::prelude::*;

verus! {

pub open spec fn timaru_word() -> Seq<char> {
    seq!['t', 'i', 'm', 'a', 'r', 'u']
}

pub open spec fn dot_config_word() -> Seq<char> {
    seq!['.', 'c', 'o', 'n', 'f', 'i', 'g', '/'] + timaru_word()
}

/// What comes before a relative path joined onto `base`: nothing for an empty
/// base, the base where it already ends with `/`, else the base and a `/`.
pub open spec fn dir_prefix(base: Seq<char>) -> Seq<char> {
    if base.len() == 0 {
        base
    } else if base.last() == '/' {
        base
    } else {
        base.push('/')
    }
}

/// The relative path `rel` joined onto `base`.
pub open spec fn join_path(base: Seq<char>, rel: Seq<char>) -> Seq<char> {
    dir_prefix(base) + rel
}

/// The configuration directory: `timaru` under `$XDG_CONFIG_HOME` where that
/// is set, even to an empty value, else `.config/timaru` under `$HOME`, else
/// none.
pub open spec fn config_path(xdg: Option<Seq<char>>, home: Option<Seq<char>>) -> Option<Seq<char>> {
    match xdg {
        Some(x) => Some(join_path(x, timaru_word())),
        None => match home {
            Some(h) => Some(join_path(h, dot_config_word())),
            None => None,
        },
    }
}

/// The schedules' root under a configuration directory.
pub open spec fn db_path(cfg: Seq<char>) -> Seq<char> {
    join_path(cfg, seq!['d', 'b'])
}

/// `base`, ready for a relative path to be appended (see `dir_prefix`).
fn start_join(base: &str) -> (r: String)
    ensures
        r@ == dir_prefix(base@),
{
    let mut s = String::new();
    s.append(base);
    let n = base.unicode_len();
    if n > 0 && base.get_char(n - 1) != '/' {
        push_char(&mut s, '/');
    }
    s
}

fn push_timaru(out: &mut String)
    ensures
        final(out)@ == old(out)@ + timaru_word(),
{
    push_char(out, 't');
    push_char(out, 'i');
    push_char(out, 'm');
    push_char(out, 'a');
    push_char(out, 'r');
    push_char(out, 'u');
    assert(final(out)@ =~= old(out)@ + timaru_word());
}

/// The configuration directory, from the values of `$XDG_CONFIG_HOME` and
/// `$HOME`; `EnvVar` where neither is set.
pub fn config_dir(xdg_config_home: Option<&str>, home: Option<&str>) -> (r: Result<
    String,
    TimaruError,
>)
    ensures
        match config_path(
            match xdg_config_home {
                Some(x) => Some(x@),
                None => None,
            },
            match home {
                Some(h) => Some(h@),
                None => None,
            },
        ) {
            Some(p) => r matches Ok(s) && s@ == p,
            None => r matches Err(TimaruError::EnvVar),
        },
{
    match xdg_config_home {
        Some(x) => {
            let mut s = start_join(x);
            push_timaru(&mut s);
            Ok(s)
        },
        None => match home {
            Some(h) => {
                let mut s = start_join(h);
                push_char(&mut s, '.');
                push_char(&mut s, 'c');
                push_char(&mut s, 'o');
                push_char(&mut s, 'n');
                push_char(&mut s, 'f');
                push_char(&mut s, 'i');
                push_char(&mut s, 'g');
                push_char(&mut s, '/');
                push_timaru(&mut s);
                assert(s@ =~= join_path(h@, dot_config_word()));
                Ok(s)
            },
            None => Err(TimaruError::EnvVar),
        },
    }
}

/// The configuration directory and the schedules' root under it, from the
/// values of `$XDG_CONFIG_HOME` and `$HOME`. Making the directories is left
/// to the caller.
pub fn check_setup(xdg_config_home: Option<&str>, home: Option<&str>) -> (r: Result<
    (String, String),
    TimaruError,
>)
    ensures
        match config_path(
            match xdg_config_home {
                Some(x) => Some(x@),
                None => None,
            },
            match home {
                Some(h) => Some(h@),
                None => None,
            },
        ) {
            Some(p) => r matches Ok((c, d)) && c@ == p && d@ == db_path(p),
            None => r matches Err(TimaruError::EnvVar),
        },
{
    let cfg = match config_dir(xdg_config_home, home) {
        Ok(c) => c,
        Err(e) => {
            return Err(e);
        },
    };
    let mut db = start_join(cfg.as_str());
    push_char(&mut db, 'd');
    push_char(&mut db, 'b');
    assert(db@ =~= db_path(cfg@));
    Ok((cfg, db))
}

} // verus!
