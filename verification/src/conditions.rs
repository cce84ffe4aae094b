//! Include and exclude rules, registered per source file, that decide which hosts survive.
use crate::errors::{ErrorKind, ErrorKindView};
use crate::host::{Host, HostView};
use crate::order::same_text;
use crate::text::{char_index, chars_of, find_char, string_views};
use regex::Regex;
use vstd::prelude::*;
use vstd::string::{StrSliceExecFns, StringExecFns};

verus! {

/// `regex::Regex`, a compiled regular expression. Nothing inside it is visible here.
#[verifier::external_type_specification]
#[verifier::external_body]
pub struct ExRegex(regex::Regex);

/// `regex::Error`, the reason why a pattern did not compile.
#[verifier::external_type_specification]
#[verifier::external_body]
pub struct ExRegexError(regex::Error);

/// Whether `re` matches anywhere in `text`: the result of `Regex::is_match`.
pub uninterp spec fn regex_matches(re: Regex, text: Seq<char>) -> bool;

/// The pattern that `re` was compiled from: the result of `Regex::as_str`.
pub uninterp spec fn regex_source(re: Regex) -> Seq<char>;

/// `Regex::is_match` searches the whole haystack from its start and never panics. Its
/// result depends on the expression and the haystack alone, and is named `regex_matches`.
pub assume_specification[ Regex::is_match ](re: &Regex, haystack: &str) -> (found: bool)
    ensures
        found == regex_matches(*re, haystack@),
;

/// `Regex::new` compiles a pattern or reports why it cannot. Whether it succeeds is left
/// open, since it also depends on a size limit; a compiled expression keeps the pattern
/// it was given.
pub assume_specification[ Regex::new ](re: &str) -> (compiled: Result<Regex, regex::Error>)
    ensures
        compiled matches Ok(r) ==> regex_source(r) == re@,
;

/// A filtering rule for the hosts of one source file.
#[derive(Debug)]
pub enum Condition {
    /// Hosts whose name matches are eligible; once such a rule is present, hosts that no
    /// rule lets in are not.
    Include(Regex),
    /// Hosts whose name matches are not eligible.
    Exclude(Regex),
    /// Every host is eligible.
    Everything,
}

/// The file part of a condition specification `FILENAME,REGEX`: what precedes the first comma.
pub open spec fn spec_path(spec: Seq<char>) -> Seq<char> {
    spec.take(find_char(spec, ','))
}

/// The pattern part of a condition specification: what follows the first comma.
pub open spec fn spec_pattern(spec: Seq<char>) -> Seq<char> {
    spec.skip(find_char(spec, ',') + 1)
}

/// Whether `spec` has a comma with a pattern that is not empty behind it.
pub open spec fn spec_well_formed(spec: Seq<char>) -> bool {
    find_char(spec, ',') + 1 < spec.len()
}

/// Whether `rule` is what the specification `spec` stands for: a rule of the wanted
/// kind, on the specification's path, with a pattern compiled from the specification's.
pub open spec fn rule_of(spec: Seq<char>, including: bool, rule: (Seq<char>, Condition)) -> bool {
    &&& spec_well_formed(spec)
    &&& rule.0 == spec_path(spec)
    &&& including ==> (rule.1 matches Condition::Include(re) && regex_source(re) == spec_pattern(
        spec,
    ))
    &&& !including ==> (rule.1 matches Condition::Exclude(re) && regex_source(re) == spec_pattern(
        spec,
    ))
}

/// What a condition specification yields, given what compiling its pattern gave.
pub open spec fn condition_from(
    spec: Seq<char>,
    including: bool,
    compiled: Result<Regex, regex::Error>,
) -> Result<(Seq<char>, Condition), ErrorKindView> {
    if !spec_well_formed(spec) {
        Err(ErrorKindView::ConditionFormat(spec))
    } else {
        match compiled {
            Ok(re) => Ok(
                (
                    spec_path(spec),
                    if including {
                        Condition::Include(re)
                    } else {
                        Condition::Exclude(re)
                    },
                ),
            ),
            Err(_) => Err(ErrorKindView::ConditionFormat(spec)),
        }
    }
}

/// The view of the result of parsing a condition specification.
pub open spec fn condition_view(r: Result<(String, Condition), ErrorKind>) -> Result<
    (Seq<char>, Condition),
    ErrorKindView,
> {
    match r {
        Ok((path, cond)) => Ok((path@, cond)),
        Err(e) => Err(e@),
    }
}

impl Condition {
    /// Parses `FILENAME,REGEX` into the file's path and a rule that excludes the hosts
    /// matching the pattern. Fails where the specification has no comma, an empty pattern,
    /// or a pattern that does not compile.
    pub fn exclude_from(spec: &str) -> (r: Result<(String, Condition), ErrorKind>)
        ensures
            !spec_well_formed(spec@) ==> r is Err,
            r matches Err(e) ==> e@ == ErrorKindView::ConditionFormat(spec@),
            r matches Ok((path, cond)) ==> rule_of(spec@, false, (path@, cond)),
    {
        Condition::parse(spec, false)
    }

    /// Parses `FILENAME,REGEX` into the file's path and a rule that includes the hosts
    /// matching the pattern. Fails where the specification has no comma, an empty pattern,
    /// or a pattern that does not compile.
    pub fn include_from(spec: &str) -> (r: Result<(String, Condition), ErrorKind>)
        ensures
            !spec_well_formed(spec@) ==> r is Err,
            r matches Err(e) ==> e@ == ErrorKindView::ConditionFormat(spec@),
            r matches Ok((path, cond)) ==> rule_of(spec@, true, (path@, cond)),
    {
        Condition::parse(spec, true)
    }

    /// The rule that a specification yields once its pattern has been compiled: an include
    /// rule if `including`, else an exclude rule, on the path before the first comma.
    pub fn from_compiled(spec: &str, including: bool, compiled: Result<Regex, regex::Error>) -> (r:
        Result<(String, Condition), ErrorKind>)
        ensures
            condition_view(r) == condition_from(spec@, including, compiled),
    {
        let v = chars_of(spec);
        let comma = char_index(&v, ',');
        if comma >= v.len() || comma + 1 >= v.len() {
            return Err(ErrorKind::ConditionFormat(String::from_str(spec)));
        }
        match compiled {
            Ok(re) => {
                let path = String::from_str(spec.substring_char(0, comma));
                let cond = if including {
                    Condition::Include(re)
                } else {
                    Condition::Exclude(re)
                };
                Ok((path, cond))
            },
            Err(_) => Err(ErrorKind::ConditionFormat(String::from_str(spec))),
        }
    }

    fn parse(spec: &str, including: bool) -> (r: Result<(String, Condition), ErrorKind>)
        ensures
            !spec_well_formed(spec@) ==> r is Err,
            r matches Err(e) ==> e@ == ErrorKindView::ConditionFormat(spec@),
            r matches Ok((path, cond)) ==> rule_of(spec@, including, (path@, cond)),
    {
        let v = chars_of(spec);
        let comma = char_index(&v, ',');
        if comma >= v.len() || comma + 1 >= v.len() {
            return Err(ErrorKind::ConditionFormat(String::from_str(spec)));
        }
        let pattern = spec.substring_char(comma + 1, v.len());
        proof {
            assert(pattern@ =~= spec_pattern(spec@));
        }
        let compiled = Regex::new(pattern);
        Condition::from_compiled(spec, including, compiled)
    }
}

/// The rules registered for the files of one run, in the order in which they were added.
pub struct Conditions {
    rules: Vec<(String, Condition)>,
}

impl View for Conditions {
    type V = Seq<(Seq<char>, Condition)>;

    closed spec fn view(&self) -> Seq<(Seq<char>, Condition)> {
        self.rules@.map_values(|r: (String, Condition)| (r.0@, r.1))
    }
}

/// The rules registered for the file `source`, in the order in which they were added.
pub open spec fn rules_for(rules: Seq<(Seq<char>, Condition)>, source: Seq<char>) -> Seq<
    Condition,
>
    decreases rules.len(),
{
    if rules.len() == 0 {
        Seq::empty()
    } else if rules[0].0 == source {
        seq![rules[0].1] + rules_for(rules.drop_first(), source)
    } else {
        rules_for(rules.drop_first(), source)
    }
}

/// The outcome of consulting `rules` in order for a host called `name`. The first rule
/// that decides ends it: `Everything` or a matching `Include` lets the host in, a matching
/// `Exclude` keeps it out. Where no rule decides, the outcome is `fallback`, which an
/// `Include` that does not match turns to `false` for the rules behind it.
pub open spec fn verdict(rules: Seq<Condition>, name: Seq<char>, fallback: bool) -> bool
    decreases rules.len(),
{
    if rules.len() == 0 {
        fallback
    } else {
        match rules[0] {
            Condition::Everything => true,
            Condition::Include(re) => regex_matches(re, name) || verdict(
                rules.drop_first(),
                name,
                false,
            ),
            Condition::Exclude(re) => !regex_matches(re, name) && verdict(
                rules.drop_first(),
                name,
                fallback,
            ),
        }
    }
}

/// Whether the rules registered for a host's source file let the host in. A file without
/// rules lets every host in.
pub open spec fn is_eligible(rules: Seq<(Seq<char>, Condition)>, host: HostView) -> bool {
    verdict(rules_for(rules, host.source), host.name, true)
}

impl Conditions {
    /// No rules at all.
    pub fn new() -> (conds: Conditions)
        ensures
            conds@ == Seq::<(Seq<char>, Condition)>::empty(),
    {
        let conds = Conditions { rules: Vec::new() };
        proof {
            assert(conds@ =~= Seq::<(Seq<char>, Condition)>::empty());
        }
        conds
    }

    /// Registers `cond` for the file `path`, behind the rules that the file already has.
    pub fn add(&mut self, path: String, cond: Condition)
        ensures
            final(self)@ == old(self)@.push((path@, cond)),
    {
        self.rules.push((path, cond));
        proof {
            assert(self@ =~= old(self)@.push((path@, cond)));
        }
    }

    /// Whether the rules registered for the host's source file let the host in.
    pub fn eligible(&self, host: &Host) -> (allowed: bool)
        ensures
            allowed == is_eligible(self@, host@),
    {
        let mut fallback = true;
        let mut i: usize = 0;
        proof {
            assert(self@.skip(0) =~= self@);
        }
        while i < self.rules.len()
            invariant
                i <= self.rules.len(),
                self@.len() == self.rules.len(),
                is_eligible(self@, host@) == verdict(
                    rules_for(self@.skip(i as int), host@.source),
                    host@.name,
                    fallback,
                ),
            decreases self.rules.len() - i,
        {
            let ghost rest = rules_for(self@.skip(i + 1), host@.source);
            proof {
                assert(self@.skip(i as int).drop_first() =~= self@.skip(i + 1));
                assert(self@.skip(i as int)[0] == self@[i as int]);
                assert((seq![self@[i as int].1] + rest).drop_first() =~= rest);
            }
            let rule = &self.rules[i];
            if same_text(rule.0.as_str(), host.source()) {
                match &rule.1 {
                    Condition::Everything => {
                        return true;
                    },
                    Condition::Include(re) => {
                        if re.is_match(host.name()) {
                            return true;
                        }
                        fallback = false;
                    },
                    Condition::Exclude(re) => {
                        if re.is_match(host.name()) {
                            return false;
                        }
                    },
                }
            }
            i += 1;
        }
        fallback
    }
}

impl Default for Conditions {
    fn default() -> (conds: Conditions)
        ensures
            conds@ == Seq::<(Seq<char>, Condition)>::empty(),
    {
        Conditions::new()
    }
}

/// Registering a rule for a file appends it to that file's rules and leaves the rules of
/// every other file as they were.
pub proof fn lemma_add_appends(
    rules: Seq<(Seq<char>, Condition)>,
    path: Seq<char>,
    cond: Condition,
    source: Seq<char>,
)
    ensures
        rules_for(rules.push((path, cond)), source) == if path == source {
            rules_for(rules, source).push(cond)
        } else {
            rules_for(rules, source)
        },
    decreases rules.len(),
{
    let longer = rules.push((path, cond));
    if rules.len() == 0 {
        assert(longer.drop_first() =~= rules);
        assert(rules_for(longer, source) =~= if path == source {
            rules_for(rules, source).push(cond)
        } else {
            rules_for(rules, source)
        });
    } else {
        lemma_add_appends(rules.drop_first(), path, cond, source);
        assert(longer.drop_first() =~= rules.drop_first().push((path, cond)));
        assert(rules_for(longer, source) =~= if path == source {
            rules_for(rules, source).push(cond)
        } else {
            rules_for(rules, source)
        });
    }
}

/// Without rules every host is eligible.
pub proof fn lemma_no_rules_eligible(host: HostView)
    ensures
        is_eligible(Seq::empty(), host),
{
}

/// A file without rules of its own lets every host in, whatever other files have.
pub proof fn lemma_unregistered_source_eligible(
    rules: Seq<(Seq<char>, Condition)>,
    host: HostView,
)
    requires
        forall|i: int| 0 <= i < rules.len() ==> (#[trigger] rules[i]).0 != host.source,
    ensures
        is_eligible(rules, host),
    decreases rules.len(),
{
    if rules.len() > 0 {
        let rest = rules.drop_first();
        assert forall|i: int| 0 <= i < rest.len() implies (#[trigger] rest[i]).0
            != host.source by {
            assert(rest[i] == rules[i + 1]);
        }
        lemma_unregistered_source_eligible(rest, host);
    }
}

/// A single `Include` rule lets in exactly the hosts that it matches.
pub proof fn lemma_single_include(re: Regex, host: HostView)
    ensures
        is_eligible(seq![(host.source, Condition::Include(re))], host) == regex_matches(
            re,
            host.name,
        ),
{
    reveal_with_fuel(rules_for, 2);
    reveal_with_fuel(verdict, 2);
    let rules = seq![(host.source, Condition::Include(re))];
    assert(rules.drop_first() =~= Seq::empty());
    let mine = rules_for(rules, host.source);
    assert(mine =~= seq![Condition::Include(re)]);
    assert(mine.drop_first() =~= Seq::empty());
}

/// A single `Exclude` rule keeps out exactly the hosts that it matches.
pub proof fn lemma_single_exclude(re: Regex, host: HostView)
    ensures
        is_eligible(seq![(host.source, Condition::Exclude(re))], host) == !regex_matches(
            re,
            host.name,
        ),
{
    reveal_with_fuel(rules_for, 2);
    reveal_with_fuel(verdict, 2);
    let rules = seq![(host.source, Condition::Exclude(re))];
    assert(rules.drop_first() =~= Seq::empty());
    let mine = rules_for(rules, host.source);
    assert(mine =~= seq![Condition::Exclude(re)]);
    assert(mine.drop_first() =~= Seq::empty());
}

/// Whether no rule of `rules` decides for `name`: none is `Everything` and none matches.
pub open spec fn undecided(rules: Seq<Condition>, name: Seq<char>) -> bool {
    forall|i: int|
        0 <= i < rules.len() ==> match #[trigger] rules[i] {
            Condition::Everything => false,
            Condition::Include(re) => !regex_matches(re, name),
            Condition::Exclude(re) => !regex_matches(re, name),
        }
}

/// Where no rule decides, the host is eligible exactly if there is no `Include` rule.
pub proof fn lemma_undecided(rules: Seq<Condition>, name: Seq<char>, fallback: bool)
    requires
        undecided(rules, name),
    ensures
        verdict(rules, name, fallback) == (fallback && forall|i: int|
            0 <= i < rules.len() ==> !((#[trigger] rules[i]) is Include)),
    decreases rules.len(),
{
    if rules.len() > 0 {
        let rest = rules.drop_first();
        assert forall|i: int| 0 <= i < rest.len() implies match #[trigger] rest[i] {
            Condition::Everything => false,
            Condition::Include(re) => !regex_matches(re, name),
            Condition::Exclude(re) => !regex_matches(re, name),
        } by {
            assert(rest[i] == rules[i + 1]);
        }
        let first = rules[0];
        match first {
            Condition::Everything => {},
            Condition::Include(re) => {
                lemma_undecided(rest, name, false);
            },
            Condition::Exclude(re) => {
                lemma_undecided(rest, name, fallback);
                if forall|i: int| 0 <= i < rest.len() ==> !((#[trigger] rest[i]) is Include) {
                    assert forall|i: int| 0 <= i < rules.len() implies !((
                    #[trigger] rules[i]) is Include) by {
                        if i > 0 {
                            assert(rules[i] == rest[i - 1]);
                        }
                    }
                } else {
                    let j = choose|j: int| 0 <= j < rest.len() && (#[trigger] rest[j]) is Include;
                    assert(rules[j + 1] == rest[j]);
                }
            },
        }
    }
}

/// Where every rule is an `Exclude`, the host is eligible exactly if none matches.
pub proof fn lemma_only_excludes(rules: Seq<Condition>, name: Seq<char>)
    requires
        forall|i: int| 0 <= i < rules.len() ==> (#[trigger] rules[i]) is Exclude,
    ensures
        verdict(rules, name, true) == forall|i: int|
            0 <= i < rules.len() ==> !regex_matches((#[trigger] rules[i])->Exclude_0, name),
    decreases rules.len(),
{
    if rules.len() > 0 {
        let rest = rules.drop_first();
        assert forall|i: int| 0 <= i < rest.len() implies (#[trigger] rest[i]) is Exclude by {
            assert(rest[i] == rules[i + 1]);
        }
        lemma_only_excludes(rest, name);
        let quiet = forall|i: int|
            0 <= i < rest.len() ==> !regex_matches((#[trigger] rest[i])->Exclude_0, name);
        if !regex_matches(rules[0]->Exclude_0, name) {
            if quiet {
                assert forall|i: int| 0 <= i < rules.len() implies !regex_matches(
                    (#[trigger] rules[i])->Exclude_0,
                    name,
                ) by {
                    if i > 0 {
                        assert(rules[i] == rest[i - 1]);
                    }
                }
            } else {
                let j = choose|j: int|
                    0 <= j < rest.len() && regex_matches((#[trigger] rest[j])->Exclude_0, name);
                assert(rules[j + 1] == rest[j]);
            }
        }
    }
}

/// An `Exclude` and an `Include` rule of which neither matches keep the host out, in
/// either order.
pub proof fn lemma_unmatched_include_keeps_out(
    exclude: Regex,
    wanted: Regex,
    host: HostView,
)
    requires
        !regex_matches(exclude, host.name),
        !regex_matches(wanted, host.name),
    ensures
        !is_eligible(
            seq![
                (host.source, Condition::Exclude(exclude)),
                (host.source, Condition::Include(wanted)),
            ],
            host,
        ),
        !is_eligible(
            seq![
                (host.source, Condition::Include(wanted)),
                (host.source, Condition::Exclude(exclude)),
            ],
            host,
        ),
{
    reveal_with_fuel(rules_for, 3);
    let x = (host.source, Condition::Exclude(exclude));
    let w = (host.source, Condition::Include(wanted));
    assert(seq![x, w].drop_first() =~= seq![w]);
    assert(seq![w, x].drop_first() =~= seq![x]);
    assert(seq![w].drop_first() =~= Seq::empty());
    assert(seq![x].drop_first() =~= Seq::empty());
    let a = rules_for(seq![x, w], host.source);
    let b = rules_for(seq![w, x], host.source);
    assert(a =~= seq![x.1, w.1]);
    assert(b =~= seq![w.1, x.1]);
    lemma_undecided(a, host.name, true);
    lemma_undecided(b, host.name, true);
    assert(a[1] is Include);
    assert(b[0] is Include);
}

/// Whether `rules` holds, in order, one rule for each of the first `n` include
/// specifications and, behind them, one for each of the first `m` exclude specifications.
pub open spec fn rules_of(
    includes: Seq<Seq<char>>,
    n: int,
    excludes: Seq<Seq<char>>,
    m: int,
    rules: Seq<(Seq<char>, Condition)>,
) -> bool {
    &&& rules.len() == n + m
    &&& forall|i: int| 0 <= i < n ==> rule_of(includes[i], true, #[trigger] rules[i])
    &&& forall|j: int| 0 <= j < m ==> rule_of(excludes[j], false, #[trigger] rules[n + j])
}

/// Whether `e` is the error for one of `specs`, and the specifications before that one
/// all have a comma with a pattern behind it.
pub open spec fn rejects_one_of(e: ErrorKindView, specs: Seq<Seq<char>>) -> bool {
    exists|i: int|
        0 <= i < specs.len() && e == ErrorKindView::ConditionFormat(#[trigger] specs[i])
            && all_well_formed(specs.take(i))
}

/// Whether each of `specs` has a comma with a pattern that is not empty behind it.
pub open spec fn all_well_formed(specs: Seq<Seq<char>>) -> bool {
    forall|i: int| 0 <= i < specs.len() ==> spec_well_formed(#[trigger] specs[i])
}

/// The rules of a run: one for each include specification, then one for each exclude
/// specification. Fails with the first specification, in that order, that yields no rule;
/// it always fails where a specification has no comma or an empty pattern.
pub fn create_conditions(includes: Vec<String>, excludes: Vec<String>) -> (r: Result<
    Conditions,
    ErrorKind,
>)
    ensures
        r matches Ok(conds) ==> rules_of(
            string_views(includes@),
            includes@.len() as int,
            string_views(excludes@),
            excludes@.len() as int,
            conds@,
        ),
        r matches Err(e) ==> rejects_one_of(e@, string_views(includes@) + string_views(excludes@)),
        r is Ok ==> all_well_formed(string_views(includes@) + string_views(excludes@)),
{
    let mut conds = Conditions::new();
    let mut i: usize = 0;
    while i < includes.len()
        invariant
            i <= includes.len(),
            rules_of(string_views(includes@), i as int, string_views(excludes@), 0, conds@),
        decreases includes.len() - i,
    {
        let ghost was = conds@;
        match Condition::include_from(includes[i].as_str()) {
            Err(e) => {
                proof {
                    let all = string_views(includes@) + string_views(excludes@);
                    assert(all[i as int] == includes@[i as int]@);
                    assert forall|k: int| 0 <= k < i implies spec_well_formed(
                        #[trigger] all.take(i as int)[k],
                    ) by {
                        assert(rule_of(string_views(includes@)[k], true, conds@[k]));
                    }
                }
                return Err(e);
            },
            Ok((path, cond)) => {
                conds.add(path, cond);
                proof {
                    assert forall|k: int| 0 <= k < i + 1 implies rule_of(
                        string_views(includes@)[k],
                        true,
                        #[trigger] conds@[k],
                    ) by {
                        if k < i {
                            assert(conds@[k] == was[k]);
                        }
                    }
                }
            },
        }
        i += 1;
    }
    let n = includes.len();
    let mut j: usize = 0;
    while j < excludes.len()
        invariant
            j <= excludes.len(),
            n == includes.len(),
            rules_of(
                string_views(includes@),
                n as int,
                string_views(excludes@),
                j as int,
                conds@,
            ),
        decreases excludes.len() - j,
    {
        let ghost was = conds@;
        match Condition::exclude_from(excludes[j].as_str()) {
            Err(e) => {
                proof {
                    let all = string_views(includes@) + string_views(excludes@);
                    assert(all[n + j] == excludes@[j as int]@);
                    assert forall|k: int| 0 <= k < n + j implies spec_well_formed(
                        #[trigger] all.take(n + j)[k],
                    ) by {
                        if k < n {
                            assert(rule_of(string_views(includes@)[k], true, conds@[k]));
                        } else {
                            assert(rule_of(
                                string_views(excludes@)[k - n],
                                false,
                                conds@[n + (k - n)],
                            ));
                        }
                    }
                }
                return Err(e);
            },
            Ok((path, cond)) => {
                conds.add(path, cond);
                proof {
                    assert forall|k: int| 0 <= k < n implies rule_of(
                        string_views(includes@)[k],
                        true,
                        #[trigger] conds@[k],
                    ) by {
                        assert(conds@[k] == was[k]);
                    }
                    assert forall|k: int| 0 <= k < j + 1 implies rule_of(
                        string_views(excludes@)[k],
                        false,
                        #[trigger] conds@[n + k],
                    ) by {
                        if k < j {
                            assert(conds@[n + k] == was[n + k]);
                        }
                    }
                }
            },
        }
        j += 1;
    }
    proof {
        let all = string_views(includes@) + string_views(excludes@);
        assert forall|k: int| 0 <= k < all.len() implies spec_well_formed(#[trigger] all[k]) by {
            if k < n {
                assert(rule_of(string_views(includes@)[k], true, conds@[k]));
            } else {
                assert(rule_of(string_views(excludes@)[k - n], false, conds@[n + (k - n)]));
            }
        }
    }
    Ok(conds)
}

} // verus!
