//! The accounts that a user has signed in to, each under a name.

use crate::text::same_text;
use vstd::prelude::*;
use vstd::string::*;

verus! {

/// An account on a server, with the tokens that the server gave out for it.
#[derive(Debug, Clone)]
pub struct Profile {
    pub name: String,
    pub server: String,
    pub access_token: String,
    pub refresh_token: String,
    pub user_email: Option<String>,
    pub user_nickname: Option<String>,
}

/// The profiles that are kept, and the name of the one in use.
#[derive(Debug, Clone)]
pub struct Profiles {
    pub profiles: Vec<Profile>,
    pub active_profile: Option<String>,
}

/// Where the first profile of a name stands.
pub open spec fn position(profiles: Seq<Profile>, name: Seq<char>) -> Option<int>
    decreases profiles.len(),
{
    if profiles.len() == 0 {
        None
    } else {
        match position(profiles.drop_last(), name) {
            Some(i) => Some(i),
            None => if profiles.last().name@ == name {
                Some(profiles.len() - 1)
            } else {
                None
            },
        }
    }
}

/// The first profile of a name.
pub open spec fn profile_of(profiles: Seq<Profile>, name: Seq<char>) -> Option<Profile> {
    match position(profiles, name) {
        Some(i) => Some(profiles[i]),
        None => None,
    }
}

/// Whether no two profiles have the same name.
pub open spec fn names_differ(profiles: Seq<Profile>) -> bool {
    forall|i: int, j: int|
        0 <= i < j < profiles.len() ==> #[trigger] profiles[i].name@
            != #[trigger] profiles[j].name@
}

/// The profiles with this one in the place of the first of its name, or else at the
/// end.
pub open spec fn with_profile(profiles: Seq<Profile>, profile: Profile) -> Seq<Profile> {
    match position(profiles, profile.name@) {
        Some(i) => profiles.update(i, profile),
        None => profiles.push(profile),
    }
}

/// The profiles of all other names.
pub open spec fn without_name(profiles: Seq<Profile>, name: Seq<char>) -> Seq<Profile> {
    profiles.filter(|p: Profile| p.name@ != name)
}

proof fn lemma_position(profiles: Seq<Profile>, name: Seq<char>)
    ensures
        match position(profiles, name) {
            Some(i) => {
                &&& 0 <= i < profiles.len()
                &&& profiles[i].name@ == name
                &&& forall|j: int| 0 <= j < i ==> (#[trigger] profiles[j]).name@ != name
            },
            None => forall|j: int|
                0 <= j < profiles.len() ==> (#[trigger] profiles[j]).name@ != name,
        },
    decreases profiles.len(),
{
    if profiles.len() > 0 {
        let before = profiles.drop_last();
        lemma_position(before, name);
        assert forall|j: int| 0 <= j < before.len() implies before[j] == profiles[j] by {}
        match position(before, name) {
            Some(i) => {
                assert forall|j: int| 0 <= j < i implies (#[trigger] profiles[j]).name@ != name by {
                    assert(before[j].name@ != name);
                }
            },
            None => {
                assert forall|j: int| 0 <= j < before.len() implies (#[trigger] profiles[j]).name@
                    != name by {
                    assert(before[j].name@ != name);
                }
            },
        }
    }
}

/// There is one place that a name can be found at.
proof fn lemma_position_is(profiles: Seq<Profile>, name: Seq<char>, i: int)
    requires
        0 <= i < profiles.len(),
        profiles[i].name@ == name,
        forall|j: int| 0 <= j < i ==> (#[trigger] profiles[j]).name@ != name,
    ensures
        position(profiles, name) == Some(i),
{
    lemma_position(profiles, name);
}

impl Profiles {
    /// The profile in use.
    pub open spec fn active(self) -> Option<Profile> {
        match self.active_profile {
            Some(name) => profile_of(self.profiles@, name@),
            None => None,
        }
    }

    /// The place of the first profile of a name.
    pub fn find(&self, name: &str) -> (r: Option<usize>)
        ensures
            match r {
                Some(i) => position(self.profiles@, name@) == Some(i as int) && i
                    < self.profiles@.len(),
                None => position(self.profiles@, name@) is None,
            },
    {
        let mut i: usize = 0;
        while i < self.profiles.len()
            invariant
                i <= self.profiles@.len(),
                forall|j: int| 0 <= j < i ==> (#[trigger] self.profiles@[j]).name@ != name@,
            decreases self.profiles@.len() - i,
        {
            if same_text(self.profiles[i].name.as_str(), name) {
                proof {
                    lemma_position_is(self.profiles@, name@, i as int);
                }
                return Some(i);
            }
            i = i + 1;
        }
        proof {
            lemma_position(self.profiles@, name@);
        }
        None
    }

    /// The first profile of a name.
    pub fn get_profile(&self, name: &str) -> (r: Option<&Profile>)
        ensures
            match r {
                Some(p) => profile_of(self.profiles@, name@) == Some(*p),
                None => profile_of(self.profiles@, name@) is None,
            },
    {
        match self.find(name) {
            Some(i) => Some(&self.profiles[i]),
            None => None,
        }
    }

    /// The profile in use.
    pub fn get_active_profile(&self) -> (r: Option<&Profile>)
        ensures
            match r {
                Some(p) => self.active() == Some(*p),
                None => self.active() is None,
            },
    {
        match &self.active_profile {
            Some(name) => self.get_profile(name.as_str()),
            None => None,
        }
    }

    /// Keeps a profile, in the place of the first of its name where there is one.
    pub fn add_or_update_profile(&mut self, profile: Profile)
        ensures
            final(self).profiles@ == with_profile(old(self).profiles@, profile),
            final(self).active_profile == old(self).active_profile,
    {
        match self.find(profile.name.as_str()) {
            Some(i) => {
                self.profiles.set(i, profile);
            },
            None => {
                self.profiles.push(profile);
            },
        }
    }

    /// Forgets the profiles of a name. Returns whether there was one.
    pub fn remove_profile(&mut self, name: &str) -> (r: bool)
        ensures
            r == (position(old(self).profiles@, name@) is Some),
            final(self).profiles@ == without_name(old(self).profiles@, name@),
            final(self).active_profile == old(self).active_profile,
    {
        let found: bool = self.find(name).is_some();
        let ghost before = self.profiles@;
        let ghost other = |p: Profile| p.name@ != name@;
        let mut i: usize = 0;
        proof {
            assert(before.take(0).filter(other) =~= Seq::empty()) by {
                reveal(Seq::filter);
            }
            assert(before.skip(0) =~= before);
            assert(self.profiles@ =~= before.take(0).filter(other) + before.skip(0));
        }
        let ghost mut seen: int = 0;
        while i < self.profiles.len()
            invariant
                i <= self.profiles@.len(),
                0 <= seen <= before.len(),
                self.profiles@ == before.take(seen).filter(other) + before.skip(seen),
                i == before.take(seen).filter(other).len(),
                other == (|p: Profile| p.name@ != name@),
                self.active_profile == old(self).active_profile,
            decreases self.profiles@.len() - i,
        {
            proof {
                reveal(Seq::filter);
                assert(before.take(seen + 1).drop_last() =~= before.take(seen));
                assert(before.take(seen + 1).last() == before[seen]);
                assert(self.profiles@[i as int] == before.skip(seen)[0]);
            }
            if same_text(self.profiles[i].name.as_str(), name) {
                let _removed: Profile = self.profiles.remove(i);
                assert(self.profiles@ =~= before.take(seen + 1).filter(other) + before.skip(
                    seen + 1,
                ));
            } else {
                assert(self.profiles@ =~= before.take(seen + 1).filter(other) + before.skip(
                    seen + 1,
                ));
                i = i + 1;
            }
            proof {
                seen = seen + 1;
            }
        }
        assert(seen == before.len());
        assert(before.take(seen) =~= before);
        assert(self.profiles@ =~= before.filter(other));
        found
    }
}

impl Default for Profiles {
    /// Nothing is kept.
    fn default() -> (r: Self)
        ensures
            r.profiles@.len() == 0,
            r.active_profile is None,
    {
        Profiles { profiles: Vec::new(), active_profile: None }
    }
}

/// A profile that is kept is found under its name, and the profiles of other names
/// are found as before.
pub proof fn kept_profile_is_found(profiles: Seq<Profile>, profile: Profile, other: Seq<char>)
    ensures
        profile_of(with_profile(profiles, profile), profile.name@) == Some(profile),
        other != profile.name@ ==> profile_of(with_profile(profiles, profile), other)
            == profile_of(profiles, other),
{
    let name = profile.name@;
    let after = with_profile(profiles, profile);
    lemma_position(profiles, name);
    match position(profiles, name) {
        Some(i) => {
            lemma_position_is(after, name, i);
        },
        None => {
            lemma_position_is(after, name, profiles.len() as int);
        },
    }
    if other != name {
        lemma_position(profiles, other);
        lemma_position(after, other);
        match position(profiles, other) {
            Some(i) => {
                lemma_position_is(after, other, i);
            },
            None => {},
        }
    }
}

/// Keeping a profile leaves every name with one profile at most.
pub proof fn keeping_leaves_names_different(profiles: Seq<Profile>, profile: Profile)
    requires
        names_differ(profiles),
    ensures
        names_differ(with_profile(profiles, profile)),
{
    lemma_position(profiles, profile.name@);
}

/// A name that is forgotten is not found any more, and the profiles of other names
/// are found as before.
pub proof fn forgotten_name_is_not_found(profiles: Seq<Profile>, name: Seq<char>, other: Seq<char>)
    ensures
        profile_of(without_name(profiles, name), name) is None,
        other != name ==> profile_of(without_name(profiles, name), other) == profile_of(
            profiles,
            other,
        ),
    decreases profiles.len(),
{
    reveal(Seq::filter);
    if profiles.len() > 0 {
        let before = profiles.drop_last();
        forgotten_name_is_not_found(before, name, other);
        let kept = without_name(before, name);
        lemma_position(before, other);
        lemma_position(kept, other);
        if profiles.last().name@ != name {
            assert(without_name(profiles, name) == kept.push(profiles.last()));
            assert(kept.push(profiles.last()).drop_last() =~= kept);
        }
    }
}

/// A profile that is found under a name has that name and is the first that does; and none
/// is found only where none has it.
pub proof fn profiles_are_found_by_their_name(profiles: Seq<Profile>, name: Seq<char>, i: int)
    requires
        0 <= i < profiles.len(),
        profiles[i].name@ == name,
    ensures
        profile_of(profiles, name) matches Some(p) && p.name@ == name,
        (forall|j: int| 0 <= j < i ==> (#[trigger] profiles[j]).name@ != name) ==> profile_of(
            profiles,
            name,
        ) == Some(profiles[i]),
{
    lemma_position(profiles, name);
    if forall|j: int| 0 <= j < i ==> (#[trigger] profiles[j]).name@ != name {
        lemma_position_is(profiles, name, i);
    }
}

/// Keeping a profile changes no other: as many are kept as before, and one more if its name
/// is new.
pub proof fn keeping_adds_one_profile_at_most(profiles: Seq<Profile>, profile: Profile, i: int)
    requires
        0 <= i < profiles.len(),
    ensures
        with_profile(profiles, profile).len() == profiles.len() + if position(
            profiles,
            profile.name@,
        ) is Some {
            0int
        } else {
            1
        },
        profiles[i].name@ != profile.name@ ==> with_profile(profiles, profile)[i] == profiles[i],
{
    lemma_position(profiles, profile.name@);
}

/// Forgetting a name drops its profiles and keeps every other.
pub proof fn forgetting_keeps_every_other_profile(
    profiles: Seq<Profile>,
    name: Seq<char>,
    p: Profile,
)
    ensures
        without_name(profiles, name).contains(p) <==> profiles.contains(p) && p.name@ != name,
    decreases profiles.len(),
{
    reveal(Seq::filter);
    if profiles.len() > 0 {
        let rest = profiles.drop_last();
        let last = profiles.last();
        forgetting_keeps_every_other_profile(rest, name, p);
        let kept = without_name(rest, name);
        assert(profiles =~= rest.push(last));
        if rest.contains(p) {
            let k = rest.index_of(p);
            assert(profiles[k] == p);
        }
        if profiles.contains(p) && p != last {
            let k = profiles.index_of(p);
            assert(rest[k] == p);
        }
        assert(profiles[rest.len() as int] == last);
        if last.name@ != name {
            assert(without_name(profiles, name) == kept.push(last));
            assert(kept.push(last)[kept.len() as int] == last);
            if kept.contains(p) {
                let k = kept.index_of(p);
                assert(kept.push(last)[k] == p);
            }
            if kept.push(last).contains(p) && p != last {
                let k = kept.push(last).index_of(p);
                assert(kept[k] == p);
            }
        }
    }
}

}
