//! Where events come from.

pub mod laws;
pub mod openclaw;
pub mod otel;
pub mod request_laws;
pub mod span_laws;
pub mod transcript_laws;

use vstd::prelude::*;
use vstd::string::*;

use crate::json::{Member, MemberView};
use crate::order::views;
use crate::text::starts_with;

verus! {

/// A string that looks like a file path or URL.
pub open spec fn resource_like(s: Seq<char>) -> bool {
    "/"@.is_prefix_of(s) || "~/"@.is_prefix_of(s) || "http://"@.is_prefix_of(s)
        || "https://"@.is_prefix_of(s)
}

/// Heuristic: does this string look like a file path or URL?
pub fn looks_like_resource(s: &str) -> (r: bool)
    ensures
        r == resource_like(s@),
{
    starts_with(s, "/") || starts_with(s, "~/") || starts_with(s, "http://") || starts_with(
        s,
        "https://",
    )
}

/// The names of an object's members.
pub open spec fn keys_of(members: Seq<MemberView>) -> Seq<Seq<char>> {
    members.map_values(|m: MemberView| m.key)
}

/// The strings among an object's values that look like resources.
pub open spec fn resources_of(members: Seq<MemberView>) -> Seq<Seq<char>>
    decreases members.len(),
{
    if members.len() == 0 {
        Seq::empty()
    } else {
        let before = resources_of(members.drop_last());
        match members.last().string {
            Some(s) => if resource_like(s) {
                before.push(s)
            } else {
                before
            },
            None => before,
        }
    }
}

/// The names of an object's members, and those of its values that look like
/// resources.
pub fn keys_and_resources(members: &Vec<Member>) -> (r: (Vec<String>, Vec<String>))
    ensures
        views(r.0@) == keys_of(views(members@)),
        views(r.1@) == resources_of(views(members@)),
{
    let ghost all = views(members@);
    let mut keys: Vec<String> = Vec::new();
    let mut resources: Vec<String> = Vec::new();
    let mut i: usize = 0;
    proof {
        assert(views(keys@) =~= keys_of(all.take(0)));
        assert(views(resources@) =~= resources_of(all.take(0)));
    }
    while i < members.len()
        invariant
            i <= members.len(),
            all == views(members@),
            views(keys@) == keys_of(all.take(i as int)),
            views(resources@) == resources_of(all.take(i as int)),
        decreases members.len() - i,
    {
        let ghost keys_before = keys@;
        let ghost resources_before = resources@;
        let ghost longer = all.take(i + 1);
        proof {
            assert(longer.drop_last() =~= all.take(i as int));
            assert(longer.last() == members@[i as int]@);
        }
        let key = members[i].key.clone();
        proof {
            assert(views(keys_before.push(key)) =~= views(keys_before).push(key@));
            assert(keys_of(longer) =~= keys_of(all.take(i as int)).push(key@));
        }
        keys.push(key);
        match &members[i].string {
            Some(s) => {
                if looks_like_resource(s.as_str()) {
                    let resource = s.clone();
                    proof {
                        assert(views(resources_before.push(resource)) =~= views(
                            resources_before,
                        ).push(resource@));
                    }
                    resources.push(resource);
                }
            },
            None => {},
        }
        i = i + 1;
    }
    proof {
        assert(all.take(all.len() as int) =~= all);
    }
    (keys, resources)
}

} // verus!
