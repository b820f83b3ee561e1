//! Which domains the proxy may connect to.
use vstd::prelude::*;

use crate::text;

verus! {

/// A rule of the allowlist.
#[derive(Debug)]
pub struct AllowedDomainRule {
    /// A domain, or `*` and the end of the domains that are meant.
    pub host: String,
    /// Whether the domain may resolve to private addresses.
    pub allow_private_ips: bool,
}

/// Whether a domain matches a pattern. Letter case does not count, and `*.example.com` stands for
/// every domain below `example.com` but not for `example.com`.
pub open spec fn matches_pattern(domain: Seq<char>, pattern: Seq<char>) -> bool {
    let domain = crate::text::lower(domain);
    let pattern = crate::text::lower(pattern);
    if pattern.len() > 0 && pattern[0] == '*' {
        pattern.skip(1).is_suffix_of(domain)
    } else {
        domain == pattern
    }
}

/// Whether a domain matches a pattern.
pub fn domain_matches(domain: &str, pattern: &str) -> (yes: bool)
    ensures
        yes == matches_pattern(domain@, pattern@),
{
    let domain = text::to_ascii_lowercase(domain);
    let pattern = text::to_ascii_lowercase(pattern);
    proof {
        reveal_strlit("*");
        assert("*"@ =~= seq!['*']);
    }
    match text::strip_prefix(pattern.as_str(), "*") {
        Some(suffix) => {
            assert(pattern@.skip(1) =~= suffix@);
            text::ends_with(domain.as_str(), suffix)
        },
        None => {
            proof {
                if pattern@.len() > 0 && pattern@[0] == '*' {
                    assert("*"@ =~= pattern@.subrange(0, 1));
                }
            }
            text::same_text(domain.as_str(), pattern.as_str())
        },
    }
}

/// How specific a pattern is: the size of what follows `*.`, and for any other pattern the
/// greatest size there is.
pub open spec fn specificity(pattern: Seq<char>) -> usize {
    if "*."@.is_prefix_of(pattern) {
        vstd::utf8::encode_utf8(pattern.skip(2)).len() as usize
    } else {
        usize::MAX
    }
}

fn pattern_specificity(pattern: &str) -> (size: usize)
    ensures
        size == specificity(pattern@),
{
    proof {
        reveal_strlit("*.");
    }
    match text::strip_prefix(pattern, "*.") {
        Some(suffix) => {
            assert("*."@ =~= pattern@.subrange(0, 2));
            assert(pattern@.skip(2) =~= suffix@);
            suffix.len()
        },
        None => usize::MAX,
    }
}

/// Whether a rule is the one that decides on a domain: it matches, no matching rule is more
/// specific, and no matching rule behind it is as specific.
pub open spec fn decides(domain: Seq<char>, rules: Seq<AllowedDomainRule>, i: int) -> bool {
    &&& 0 <= i < rules.len()
    &&& matches_pattern(domain, rules[i].host@)
    &&& forall|j: int|
        0 <= j < rules.len() && matches_pattern(domain, (#[trigger] rules[j]).host@) ==> {
            let other = specificity(rules[j].host@);
            let mine = specificity(rules[i].host@);
            other < mine || (other == mine && j <= i)
        }
}

/// Whether some rule matches a domain.
pub open spec fn listed(domain: Seq<char>, rules: Seq<AllowedDomainRule>) -> bool {
    exists|i: int| 0 <= i < rules.len() && matches_pattern(domain, (#[trigger] rules[i]).host@)
}

/// The rule that decides on a domain, if one does.
pub open spec fn deciding_rule(domain: Seq<char>, rules: Seq<AllowedDomainRule>) -> Option<
    AllowedDomainRule,
> {
    if exists|i: int| decides(domain, rules, i) {
        Some(rules[choose|i: int| decides(domain, rules, i)])
    } else {
        None
    }
}

/// The rule that decides on a domain.
pub fn matching_rule<'a>(domain: &str, rules: &'a Vec<AllowedDomainRule>) -> (rule: Option<
    &'a AllowedDomainRule,
>)
    ensures
        match rule {
            Some(rule) => deciding_rule(domain@, rules@) == Some(*rule) && listed(domain@, rules@),
            None => deciding_rule(domain@, rules@) is None && !listed(domain@, rules@),
        },
{
    let mut best: Option<usize> = None;
    for i in 0..rules.len()
        invariant
            match best {
                Some(best) => best < i && decides(domain@, rules@.take(i as int), best as int),
                None => !listed(domain@, rules@.take(i as int)),
            },
    {
        let ghost before = rules@.take(i as int);
        let ghost after = rules@.take(i + 1);
        assert forall|j: int| 0 <= j < i implies #[trigger] after[j] == before[j] by {}
        assert(after[i as int] == rules@[i as int]);
        if domain_matches(domain, rules[i].host.as_str()) {
            let mine: usize = pattern_specificity(rules[i].host.as_str());
            let replace = match best {
                Some(best) => pattern_specificity(rules[best].host.as_str()) <= mine,
                None => true,
            };
            proof {
                assert forall|j: int| 0 <= j < i && matches_pattern(domain@, (#[trigger] after[j]).host@) implies {
                    &&& best is Some
                    &&& specificity(after[j].host@) <= specificity(rules@[best->0 as int].host@)
                } by {
                    assert(matches_pattern(domain@, before[j].host@));
                    if best is Some {
                        assert(before[best->0 as int] == rules@[best->0 as int]);
                    }
                }
            }
            if replace {
                best = Some(i);
                assert(decides(domain@, after, i as int));
            } else {
                proof {
                    let held = best->0 as int;
                    assert(after[held] == before[held]);
                    assert(decides(domain@, after, held)) by {
                        assert forall|j: int|
                            0 <= j < after.len() && matches_pattern(
                                domain@,
                                (#[trigger] after[j]).host@,
                            ) implies {
                            let other = specificity(after[j].host@);
                            let mine = specificity(after[held].host@);
                            other < mine || (other == mine && j <= held)
                        } by {
                            if j < i {
                                assert(matches_pattern(domain@, before[j].host@));
                            }
                        }
                    }
                }
            }
        } else {
            proof {
                match best {
                    Some(held) => {
                        assert(after[held as int] == before[held as int]);
                        assert forall|j: int|
                            0 <= j < after.len() && matches_pattern(
                                domain@,
                                (#[trigger] after[j]).host@,
                            ) implies {
                            let other = specificity(after[j].host@);
                            let mine = specificity(after[held as int].host@);
                            other < mine || (other == mine && j <= held)
                        } by {
                            assert(j < i);
                            assert(matches_pattern(domain@, before[j].host@));
                        }
                    },
                    None => {
                        assert forall|j: int| 0 <= j < after.len() implies !matches_pattern(
                            domain@,
                            (#[trigger] after[j]).host@,
                        ) by {
                            if j < i {
                                assert(!matches_pattern(domain@, before[j].host@));
                            }
                        }
                    },
                }
            }
        }
    }
    assert(rules@.take(rules@.len() as int) =~= rules@);
    match best {
        Some(best) => {
            proof {
                let chosen = choose|i: int| decides(domain@, rules@, i);
                assert(decides(domain@, rules@, best as int));
                one_rule_decides(domain@, rules@, best as int, chosen);
                assert(matches_pattern(domain@, rules@[best as int].host@));
            }
            Some(&rules[best])
        },
        None => {
            proof {
                if exists|i: int| decides(domain@, rules@, i) {
                    let i = choose|i: int| decides(domain@, rules@, i);
                    assert(matches_pattern(domain@, rules@[i].host@));
                }
            }
            None
        },
    }
}

/// At most one rule decides on a domain.
pub proof fn one_rule_decides(domain: Seq<char>, rules: Seq<AllowedDomainRule>, i: int, j: int)
    requires
        decides(domain, rules, i),
        decides(domain, rules, j),
    ensures
        i == j,
{
    assert(matches_pattern(domain, rules[i].host@) && matches_pattern(domain, rules[j].host@));
}

/// A rule that names a domain decides on it before every rule for the domains below another one.
pub proof fn exact_rule_beats_wildcard(
    domain: Seq<char>,
    rules: Seq<AllowedDomainRule>,
    exact: int,
    i: int,
)
    requires
        0 <= exact < rules.len(),
        matches_pattern(domain, rules[exact].host@),
        !"*."@.is_prefix_of(rules[exact].host@),
        decides(domain, rules, i),
    ensures
        specificity(rules[i].host@) == usize::MAX,
{
    assert(matches_pattern(domain, rules[exact].host@));
}

/// A wildcard does not stand for the domain that it is written for.
pub proof fn wildcard_leaves_base_out(base: Seq<char>)
    ensures
        !matches_pattern(base, seq!['*', '.'] + base),
{
    let pattern = seq!['*', '.'] + base;
    assert(crate::text::lower(pattern).len() == base.len() + 2);
    assert(crate::text::lower(pattern)[0] == '*');
}

/// A wildcard stands for exactly the domains that end in a dot and its base, in whatever letter case,
/// be it at whatever depth.
pub proof fn wildcard_stands_for_subdomains(domain: Seq<char>, base: Seq<char>)
    ensures
        matches_pattern(domain, seq!['*', '.'] + base) <==> exists|below: Seq<char>|
            #![trigger below.push('.')]
            crate::text::lower(domain) == below.push('.') + crate::text::lower(base),
{
    let pattern = seq!['*', '.'] + base;
    let low = crate::text::lower(domain);
    let end = crate::text::lower(base);
    assert(crate::text::lower(pattern)[0] == '*');
    assert(crate::text::lower(pattern).skip(1) =~= seq!['.'] + end);
    let suffix = seq!['.'] + end;
    if suffix.is_suffix_of(low) {
        let below = low.take(low.len() - suffix.len());
        let last = low.subrange(low.len() - suffix.len(), low.len() as int);
        assert(last == suffix);
        assert forall|i: int| 0 <= i < suffix.len() implies low[below.len() + i]
            == #[trigger] suffix[i] by {
            assert(last[i] == suffix[i]);
        }
        assert forall|i: int| 0 <= i < low.len() implies low[i] == (below.push('.') + end)[i] by {
            if i >= below.len() {
                assert(low[i] == suffix[i - below.len()]);
            }
        }
        assert(low =~= below.push('.') + end);
    }
    if exists|below: Seq<char>|
        #![trigger below.push('.')]
        low == below.push('.') + end {
        let below = choose|below: Seq<char>|
            #![trigger below.push('.')]
            low == below.push('.') + end;
        assert(low.subrange(low.len() - suffix.len(), low.len() as int) =~= suffix);
    }
}

/// A pattern without a wildcard stands for the one domain that it names, in whatever letter case.
pub proof fn names_stand_for_themselves(domain: Seq<char>, pattern: Seq<char>)
    requires
        !pattern.contains('*'),
    ensures
        matches_pattern(domain, pattern) <==> domain.len() == pattern.len() && forall|i: int|
            0 <= i < domain.len() ==> crate::text::lower_char(#[trigger] domain[i])
                == crate::text::lower_char(pattern[i]),
{
    let low = crate::text::lower(domain);
    let name = crate::text::lower(pattern);
    if pattern.len() > 0 {
        assert(pattern.contains(pattern[0]));
        assert(name[0] == crate::text::lower_char(pattern[0]));
    }
    if low == name {
        assert(low.len() == domain.len() && name.len() == pattern.len());
        assert forall|i: int| 0 <= i < domain.len() implies crate::text::lower_char(
            #[trigger] domain[i],
        ) == crate::text::lower_char(pattern[i]) by {
            assert(low[i] == name[i]);
        }
    }
    if domain.len() == pattern.len() && forall|i: int|
        0 <= i < domain.len() ==> crate::text::lower_char(#[trigger] domain[i])
            == crate::text::lower_char(pattern[i]) {
        assert(low =~= name);
    }
}

/// Where no rule matches, none decides, and where one matches, a rule that matches decides.
pub proof fn matching_rules_decide(domain: Seq<char>, rules: Seq<AllowedDomainRule>)
    ensures
        deciding_rule(domain, rules) is Some <==> exists|i: int|
            0 <= i < rules.len() && matches_pattern(domain, (#[trigger] rules[i]).host@),
        deciding_rule(domain, rules) matches Some(rule) ==> rules.contains(rule)
            && matches_pattern(domain, rule.host@),
    decreases rules.len(),
{
    if exists|i: int| 0 <= i < rules.len() && matches_pattern(domain, (#[trigger] rules[i]).host@) {
        lemma_some_rule_decides(domain, rules);
    }
    if exists|i: int| decides(domain, rules, i) {
        let i = choose|i: int| decides(domain, rules, i);
        assert(rules[i] == deciding_rule(domain, rules)->0);
        assert(matches_pattern(domain, rules[i].host@));
    }
}

proof fn lemma_some_rule_decides(domain: Seq<char>, rules: Seq<AllowedDomainRule>)
    requires
        listed(domain, rules),
    ensures
        exists|i: int| decides(domain, rules, i),
    decreases rules.len(),
{
    let before = rules.drop_last();
    let n = rules.len() - 1;
    assert forall|j: int| 0 <= j < n implies #[trigger] before[j] == rules[j] by {}
    if listed(domain, before) {
        lemma_some_rule_decides(domain, before);
        let i = choose|i: int| decides(domain, before, i);
        if matches_pattern(domain, rules[n].host@) && specificity(rules[n].host@) >= specificity(
            rules[i].host@,
        ) {
            assert forall|j: int|
                0 <= j < rules.len() && matches_pattern(
                    domain,
                    (#[trigger] rules[j]).host@,
                ) implies {
                let other = specificity(rules[j].host@);
                let mine = specificity(rules[n].host@);
                other < mine || (other == mine && j <= n)
            } by {
                if j < n {
                    assert(matches_pattern(domain, before[j].host@));
                }
            }
            assert(decides(domain, rules, n));
        } else {
            assert(before[i] == rules[i]);
            assert forall|j: int|
                0 <= j < rules.len() && matches_pattern(
                    domain,
                    (#[trigger] rules[j]).host@,
                ) implies {
                let other = specificity(rules[j].host@);
                let mine = specificity(rules[i].host@);
                other < mine || (other == mine && j <= i)
            } by {
                if j < n {
                    assert(matches_pattern(domain, before[j].host@));
                }
            }
            assert(decides(domain, rules, i));
        }
    } else {
        let i = choose|i: int|
            0 <= i < rules.len() && matches_pattern(domain, (#[trigger] rules[i]).host@);
        if i < n {
            assert(matches_pattern(domain, before[i].host@));
        }
        assert forall|j: int|
            0 <= j < rules.len() && matches_pattern(domain, (#[trigger] rules[j]).host@) implies j
            == n by {
            if j < n {
                assert(matches_pattern(domain, before[j].host@));
            }
        }
        assert(decides(domain, rules, n));
    }
}

/// The last rule that names a domain without a wildcard decides on it, whatever wildcards there are.
pub proof fn named_domains_are_decided_by_name(
    domain: Seq<char>,
    rules: Seq<AllowedDomainRule>,
    i: int,
)
    requires
        0 <= i < rules.len(),
        !rules[i].host@.contains('*'),
        matches_pattern(domain, rules[i].host@),
        forall|j: int|
            i < j < rules.len() && matches_pattern(domain, (#[trigger] rules[j]).host@)
                ==> seq!['*', '.'].is_prefix_of(rules[j].host@) && vstd::utf8::encode_utf8(
                rules[j].host@.skip(2),
            ).len() < usize::MAX,
    ensures
        deciding_rule(domain, rules) == Some(rules[i]),
{
    reveal_strlit("*.");
    let star = "*."@;
    assert(star =~= seq!['*', '.']);
    assert(!star.is_prefix_of(rules[i].host@)) by {
        if star.is_prefix_of(rules[i].host@) {
            assert(rules[i].host@.subrange(0, 2)[0] == '*');
            assert(rules[i].host@[0] == '*');
            assert(rules[i].host@.contains('*'));
        }
    }
    assert forall|j: int|
        0 <= j < rules.len() && matches_pattern(domain, (#[trigger] rules[j]).host@) implies {
        let other = specificity(rules[j].host@);
        let mine = specificity(rules[i].host@);
        other < mine || (other == mine && j <= i)
    } by {}
    assert(decides(domain, rules, i));
    one_rule_decides(domain, rules, i, choose|k: int| decides(domain, rules, k));
}

/// Of wildcards that match a domain the one with the longest base decides, and of those that are
/// equally long the last.
pub proof fn longest_wildcard_decides(domain: Seq<char>, rules: Seq<AllowedDomainRule>, i: int)
    requires
        0 <= i < rules.len(),
        matches_pattern(domain, rules[i].host@),
        seq!['*', '.'].is_prefix_of(rules[i].host@),
        forall|j: int|
            0 <= j < rules.len() && matches_pattern(domain, (#[trigger] rules[j]).host@)
                ==> seq!['*', '.'].is_prefix_of(rules[j].host@) && ({
                let other = vstd::utf8::encode_utf8(rules[j].host@.skip(2)).len();
                let mine = vstd::utf8::encode_utf8(rules[i].host@.skip(2)).len();
                &&& other <= usize::MAX
                &&& other < mine || (other == mine && j <= i)
            }),
    ensures
        deciding_rule(domain, rules) == Some(rules[i]),
{
    reveal_strlit("*.");
    assert("*."@ =~= seq!['*', '.']);
    assert(matches_pattern(domain, rules[i].host@));
    assert forall|j: int|
        0 <= j < rules.len() && matches_pattern(domain, (#[trigger] rules[j]).host@) implies {
        let other = specificity(rules[j].host@);
        let mine = specificity(rules[i].host@);
        other < mine || (other == mine && j <= i)
    } by {}
    assert(decides(domain, rules, i));
    one_rule_decides(domain, rules, i, choose|k: int| decides(domain, rules, k));
}

/// A pattern that begins with an asterisk stands for exactly the domains that end as the rest of it does, in whatever
/// letter case.
pub proof fn asterisks_stand_for_beginnings(domain: Seq<char>, end: Seq<char>)
    ensures
        matches_pattern(domain, seq!['*'] + end) <==> domain.len() >= end.len()
            && crate::text::lower(domain).skip(domain.len() - end.len()) == crate::text::lower(end),
{
    let pattern = seq!['*'] + end;
    let low = crate::text::lower(domain);
    let suffix = crate::text::lower(end);
    assert(crate::text::lower(pattern)[0] == '*');
    assert(crate::text::lower(pattern).skip(1) =~= suffix);
    if domain.len() >= end.len() {
        assert(low.skip(domain.len() - end.len()) =~= low.subrange(
            low.len() - suffix.len(),
            low.len() as int,
        ));
    }
}

} // verus!
