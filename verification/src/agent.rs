//! The notice shown over the force-pick agent overlay (`⌥+⇧+;`).

use vstd::prelude::*;
use crate::text::{chars_of, push_seq, push_str, string_of, trim, trim_chars};

verus! {

/// An agent harness found on the machine: the command that runs it and
/// the label the picker shows.
#[derive(Debug, Clone, PartialEq, Eq)]
pub struct Found {
    pub cmd: String,
    pub label: String,
}

/// The commands of the harnesses found, in order.
pub open spec fn found_cmds(ordered: Seq<Found>) -> Seq<Seq<char>> {
    ordered.map_values(|f: Found| f.cmd@)
}

/// The notice over the force-pick overlay, mirroring what `⌥+;` would do:
/// nothing installed is said first; a configured `default_agent` that is
/// missing is named; one that is installed is called out (it still wins
/// for `⌥+;`); otherwise a remembered pick that is no longer installed is
/// named. `None` when there is nothing to explain. `want` and `last` are
/// read trimmed, and `want_installed` tells whether the trimmed `want` is
/// an installed command.
pub open spec fn notice_spec(want: Seq<char>, last: Seq<char>, cmds: Seq<Seq<char>>, want_installed: bool) -> Option<Seq<char>> {
    let w = trim(want);
    let l = trim(last);
    if cmds.len() == 0 {
        Some("No agent harness found \u{2014} type a command or take a shell"@)
    } else if w.len() > 0 && !want_installed {
        Some("`"@ + w + "` is not installed"@)
    } else if w.len() > 0 {
        Some("default_agent `"@ + w + "` still wins for \u{2325}+;"@)
    } else if l.len() > 0 && !cmds.contains(l) {
        Some("remembered `"@ + l + "` is gone; pick another"@)
    } else {
        None
    }
}

/// Whether two character vectors are equal.
fn same_chars(a: &Vec<char>, b: &Vec<char>) -> (r: bool)
    ensures
        r == (a@ == b@),
{
    if a.len() != b.len() {
        return false;
    }
    let mut i: usize = 0;
    while i < a.len()
        invariant
            a@.len() == b@.len(),
            i <= a@.len(),
            forall|k: int| 0 <= k < i ==> a@[k] == b@[k],
        decreases a.len() - i,
    {
        if a[i] != b[i] {
            return false;
        }
        i = i + 1;
    }
    proof {
        assert(a@ =~= b@);
    }
    true
}

/// The line explaining the force-pick overlay, or `None`.
pub fn force_pick_notice(want: &str, last: &str, ordered: &[Found], want_installed: bool) -> (r: Option<String>)
    ensures
        match r {
            Some(s) => notice_spec(want@, last@, found_cmds(ordered@), want_installed) == Some(s@),
            None => notice_spec(want@, last@, found_cmds(ordered@), want_installed) is None,
        },
{
    let w = trim_chars(&chars_of(want));
    let l = trim_chars(&chars_of(last));
    let ghost cmds = found_cmds(ordered@);
    if ordered.len() == 0 {
        let s = string_of(&chars_of("No agent harness found \u{2014} type a command or take a shell"));
        return Some(s);
    }
    if w.len() > 0 && !want_installed {
        let mut v: Vec<char> = Vec::new();
        push_str(&mut v, "`");
        push_seq(&mut v, &w);
        push_str(&mut v, "` is not installed");
        return Some(string_of(&v));
    }
    if w.len() > 0 {
        let mut v: Vec<char> = Vec::new();
        push_str(&mut v, "default_agent `");
        push_seq(&mut v, &w);
        push_str(&mut v, "` still wins for \u{2325}+;");
        return Some(string_of(&v));
    }
    if l.len() > 0 {
        let mut found = false;
        let mut i: usize = 0;
        while i < ordered.len()
            invariant
                i <= ordered@.len(),
                cmds == found_cmds(ordered@),
                found == exists|k: int| 0 <= k < i && cmds[k] == l@,
            decreases ordered.len() - i,
        {
            let c = chars_of(ordered[i].cmd.as_str());
            proof {
                assert(cmds[i as int] == ordered@[i as int].cmd@);
            }
            let ghost was = found;
            if same_chars(&c, &l) {
                found = true;
            }
            i = i + 1;
            proof {
                if found && !was {
                    assert(cmds[i - 1] == l@);
                }
                if !found {
                    assert forall|k: int| 0 <= k < i implies cmds[k] != l@ by {
                        if k < i - 1 {
                        }
                    }
                }
            }
        }
        proof {
            if cmds.contains(l@) {
                let k = choose|k: int| 0 <= k < cmds.len() && cmds[k] == l@;
                assert(0 <= k < i && cmds[k] == l@);
            }
            if found {
                let k = choose|k: int| 0 <= k < i && cmds[k] == l@;
                assert(cmds.contains(l@));
            }
        }
        if !found {
            let mut v: Vec<char> = Vec::new();
            push_str(&mut v, "remembered `");
            push_seq(&mut v, &l);
            push_str(&mut v, "` is gone; pick another");
            return Some(string_of(&v));
        }
    }
    None
}

} // verus!
