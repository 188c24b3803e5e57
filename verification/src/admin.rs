//! The databases of a project, as the admin side reports them.
use vstd::prelude::*;
use crate::error::PluginError;
use crate::models::Settings;
use crate::text::{owned, same_text};

verus! {

/// The part of `s` after its last `/` (all of `s` when it has none).
pub open spec fn last_segment(s: Seq<char>) -> Seq<char>
    decreases s.len(),
{
    if s.len() == 0 {
        s
    } else if s.last() == '/' {
        Seq::empty()
    } else {
        last_segment(s.drop_last()).push(s.last())
    }
}

/// The text after the last `/` of `s`.
pub fn last_segment_of(s: &str) -> (r: String)
    ensures
        r@ == last_segment(s@),
{
    let n = s.unicode_len();
    let mut k: usize = n;
    assert(s@.subrange(0, n as int) =~= s@);
    assert(last_segment(s@) + s@.subrange(n as int, n as int) =~= last_segment(s@));
    while k > 0 && s.get_char(k - 1) != '/'
        invariant
            n == s@.len(),
            0 <= k <= n,
            last_segment(s@) == last_segment(s@.subrange(0, k as int)) + s@.subrange(k as int, n as int),
        decreases k,
    {
        let ghost pre = s@.subrange(0, k as int);
        assert(pre.drop_last() =~= s@.subrange(0, k - 1));
        assert(s@.subrange(k - 1, n as int) =~= seq![pre.last()] + s@.subrange(k as int, n as int));
        assert(last_segment(pre) == last_segment(pre.drop_last()).push(pre.last()));
        assert(last_segment(pre.drop_last()).push(pre.last()) + s@.subrange(k as int, n as int)
            =~= last_segment(pre.drop_last()) + s@.subrange(k - 1, n as int));
        k -= 1;
    }
    assert(last_segment(s@.subrange(0, k as int)) =~= Seq::<char>::empty());
    assert(Seq::<char>::empty() + s@.subrange(k as int, n as int) =~= s@.subrange(k as int, n as int));
    owned(s.substring_char(k, n))
}

/// The `<id>` of a database resource name `projects/.../databases/<id>`.
pub fn strip_database_id(full_name: &str) -> (r: String)
    ensures
        r@ == last_segment(full_name@),
{
    last_segment_of(full_name)
}

/// The databases listed for the settings: with the emulator (a non-empty
/// host) the configured database plus `(default)` when that is another;
/// otherwise the configured database alone.
pub fn list_databases(settings: &Settings) -> (r: Result<Vec<String>, PluginError>)
    ensures
        r matches Ok(ids) && {
            let emulated = settings.emulator_host matches Some(h) && h@.len() > 0;
            let db = settings.database_id@;
            if emulated && db != "(default)"@ {
                ids@.len() == 2 && ids@[0]@ == db && ids@[1]@ == "(default)"@
            } else {
                ids@.len() == 1 && ids@[0]@ == db
            }
        },
{
    let emulated = match &settings.emulator_host {
        Some(h) => h.unicode_len() > 0,
        None => false,
    };
    let mut ids: Vec<String> = Vec::new();
    ids.push(settings.database_id.clone());
    if emulated && !same_text(settings.database_id.as_str(), "(default)") {
        ids.push(owned("(default)"));
    }
    Ok(ids)
}

} // verus!
