use vstd::prelude::*;

use crate::types::IpAddress;

verus! {

/// A literal address is kept unless its family is excluded by `-4` / `-6`.
pub open spec fn spec_literal_choice(ip: IpAddress, only_ipv4: bool, only_ipv6: bool) -> Option<IpAddress> {
    if only_ipv4 && ip.spec_is_ipv6() {
        None
    } else if only_ipv6 && !ip.spec_is_ipv6() {
        None
    } else {
        Some(ip)
    }
}

/// The first address of the wanted family.
pub open spec fn first_of_family(addrs: Seq<IpAddress>, want_ipv6: bool) -> Option<IpAddress>
    decreases addrs.len(),
{
    if addrs.len() == 0 {
        None
    } else if addrs[0].spec_is_ipv6() == want_ipv6 {
        Some(addrs[0])
    } else {
        first_of_family(addrs.drop_first(), want_ipv6)
    }
}

/// Whether `a` may be used under `-4` (`only_ipv4`) and `-6` (`only_ipv6`).
pub open spec fn family_allowed(a: IpAddress, only_ipv4: bool, only_ipv6: bool) -> bool {
    !(only_ipv4 && a.spec_is_ipv6()) && !(only_ipv6 && !a.spec_is_ipv6())
}

/// Among looked-up addresses: with `-6` the first IPv6 one, with `-4` the
/// first IPv4 one, and none when there is no such address (or both flags
/// are given); without either flag the first IPv4 one, else the first of
/// all.
pub open spec fn spec_lookup_choice(addrs: Seq<IpAddress>, only_ipv4: bool, only_ipv6: bool) -> Option<IpAddress> {
    if only_ipv4 && only_ipv6 {
        None
    } else if only_ipv6 {
        first_of_family(addrs, true)
    } else if only_ipv4 {
        first_of_family(addrs, false)
    } else {
        match first_of_family(addrs, false) {
            Some(a) => Some(a),
            None => if addrs.len() > 0 {
                Some(addrs[0])
            } else {
                None
            },
        }
    }
}

/// Decides whether a target given as a literal address is used.
pub fn literal_choice(ip: IpAddress, only_ipv4: bool, only_ipv6: bool) -> (r: Option<IpAddress>)
    ensures
        r == spec_literal_choice(ip, only_ipv4, only_ipv6),
{
    if only_ipv4 && ip.is_ipv6() {
        return None;
    }
    if only_ipv6 && ip.is_ipv4() {
        return None;
    }
    Some(ip)
}

/// The first address of the wanted family, if any.
fn first_of(addrs: &Vec<IpAddress>, want_ipv6: bool) -> (r: Option<IpAddress>)
    ensures
        r == first_of_family(addrs@, want_ipv6),
{
    let mut i: usize = 0;
    assert(addrs@.skip(0) =~= addrs@);
    while i < addrs.len()
        invariant
            i <= addrs@.len(),
            first_of_family(addrs@, want_ipv6) == first_of_family(addrs@.skip(i as int), want_ipv6),
        decreases addrs.len() - i,
    {
        proof {
            assert(addrs@.skip(i as int).drop_first() =~= addrs@.skip(i + 1));
        }
        if addrs[i].is_ipv6() == want_ipv6 {
            return Some(addrs[i]);
        }
        i += 1;
    }
    proof {
        assert(addrs@.skip(i as int).len() == 0);
    }
    None
}

/// Chooses among the addresses a name was looked up to.
pub fn lookup_choice(addrs: &Vec<IpAddress>, only_ipv4: bool, only_ipv6: bool) -> (r: Option<IpAddress>)
    ensures
        r == spec_lookup_choice(addrs@, only_ipv4, only_ipv6),
{
    if only_ipv4 && only_ipv6 {
        None
    } else if only_ipv6 {
        first_of(addrs, true)
    } else if only_ipv4 {
        first_of(addrs, false)
    } else {
        match first_of(addrs, false) {
            Some(a) => Some(a),
            None => if addrs.len() > 0 {
                Some(addrs[0])
            } else {
                None
            },
        }
    }
}

/// Law: a chosen looked-up address is always one of the looked-up
/// addresses and never of a family excluded by `-4` or `-6`; one is chosen
/// whenever an allowed address was looked up; without either flag an IPv4
/// address is preferred.
pub proof fn lemma_lookup_choice_sound(addrs: Seq<IpAddress>, only_ipv4: bool, only_ipv6: bool)
    ensures
        spec_lookup_choice(addrs, only_ipv4, only_ipv6) matches Some(a) ==> addrs.contains(a)
            && family_allowed(a, only_ipv4, only_ipv6),
        (exists|i: int| 0 <= i < addrs.len() && family_allowed(addrs[i], only_ipv4, only_ipv6))
            ==> spec_lookup_choice(addrs, only_ipv4, only_ipv6) is Some,
        !only_ipv4 && !only_ipv6 && (exists|i: int| 0 <= i < addrs.len() && !addrs[i].spec_is_ipv6())
            ==> !spec_lookup_choice(addrs, only_ipv4, only_ipv6).unwrap().spec_is_ipv6(),
{
    lemma_first_of_family(addrs, true);
    lemma_first_of_family(addrs, false);
    if addrs.len() > 0 {
        assert(addrs.contains(addrs[0]));
    }
    if exists|i: int| 0 <= i < addrs.len() && family_allowed(addrs[i], only_ipv4, only_ipv6) {
        let i = choose|i: int| 0 <= i < addrs.len() && family_allowed(addrs[i], only_ipv4, only_ipv6);
        assert(addrs[i].spec_is_ipv6() || !addrs[i].spec_is_ipv6());
    }
}

proof fn lemma_first_of_family(addrs: Seq<IpAddress>, want_ipv6: bool)
    ensures
        first_of_family(addrs, want_ipv6) matches Some(a) ==> addrs.contains(a) && a.spec_is_ipv6() == want_ipv6,
        (exists|i: int| 0 <= i < addrs.len() && addrs[i].spec_is_ipv6() == want_ipv6) ==> first_of_family(addrs, want_ipv6) is Some,
    decreases addrs.len(),
{
    if addrs.len() > 0 {
        lemma_first_of_family(addrs.drop_first(), want_ipv6);
        match first_of_family(addrs.drop_first(), want_ipv6) {
            Some(a) => {
                let j = choose|j: int| 0 <= j < addrs.drop_first().len() && addrs.drop_first()[j] == a;
                assert(addrs[j + 1] == a);
            },
            None => {},
        }
        assert(addrs.contains(addrs[0]));
        if exists|i: int| 0 <= i < addrs.len() && addrs[i].spec_is_ipv6() == want_ipv6 {
            let i = choose|i: int| 0 <= i < addrs.len() && addrs[i].spec_is_ipv6() == want_ipv6;
            if i > 0 {
                assert(addrs.drop_first()[i - 1] == addrs[i]);
            }
        }
    }
}

} // verus!
