//! Consistency of a configuration, so that mistakes show at start rather than at a request.
use vstd::prelude::*;
use vstd::string::*;
use crate::classifier::TaskType;
use crate::config::{Config, ModelEntry, ModelView, ProjectProfile, TaskRule};
use crate::table::Table;
use crate::{config, text};

verus! {

/// A complaint for each name that is not fine: `head`, the name and a closing quote.
pub open spec fn complaints(
    head: Seq<char>,
    names: Seq<Seq<char>>,
    fine: spec_fn(Seq<char>) -> bool,
) -> Seq<Seq<char>>
    decreases names.len(),
{
    if names.len() == 0 {
        Seq::empty()
    } else {
        let before = complaints(head, names.drop_last(), fine);
        if fine(names.last()) {
            before
        } else {
            before.push(head + names.last() + "'"@)
        }
    }
}

/// No complaint is made exactly where every name is fine.
pub proof fn lemma_complaints(
    head: Seq<char>,
    names: Seq<Seq<char>>,
    fine: spec_fn(Seq<char>) -> bool,
)
    ensures
        complaints(head, names, fine).len() == 0 <==> forall|i: int|
            0 <= i < names.len() ==> fine(#[trigger] names[i]),
    decreases names.len(),
{
    if names.len() > 0 {
        let rest = names.drop_last();
        lemma_complaints(head, rest, fine);
        if complaints(head, names, fine).len() == 0 {
            assert forall|i: int| 0 <= i < names.len() implies fine(#[trigger] names[i]) by {
                if i < names.len() - 1 {
                    assert(rest[i] == names[i]);
                }
            }
        }
        if forall|i: int| 0 <= i < names.len() ==> fine(#[trigger] names[i]) {
            assert(fine(names[names.len() - 1]));
            assert forall|i: int| 0 <= i < rest.len() implies fine(#[trigger] rest[i]) by {
                assert(fine(names[i]));
            }
        }
    }
}

/// The capabilities that a configuration may name.
pub open spec fn known_capability() -> spec_fn(Seq<char>) -> bool {
    |c: Seq<char>| config::known_capabilities().contains(c)
}

/// Whether a model can serve a rule.
pub open spec fn serves(cfg: Config, model: ModelView, rule: TaskRule) -> bool {
    &&& model.tier >= rule.min_tier
    &&& rule.require_tools ==> model.has("tools"@)
    &&& forall|c: int|
        0 <= c < rule.require_capabilities@.len() ==> model.has(
            (#[trigger] rule.require_capabilities@[c])@,
        )
    &&& rule.local_only ==> cfg.is_local(model.provider)
}

/// Whether some model of the catalogue can serve a rule.
pub open spec fn satisfiable(cfg: Config, rule: TaskRule) -> bool {
    exists|i: int| 0 <= i < cfg.models@.len() && serves(cfg, (#[trigger] cfg.models@[i])@, rule)
}

/// What is said of a rule that no model can serve.
pub open spec fn unsatisfiable_text(key: Seq<char>, rule: TaskRule) -> Seq<char> {
    let a = "task_type '"@ + key + "' ist nicht erfüllbar: kein Modell mit tier>="@ + text::decimal(
        rule.min_tier as nat,
    );
    let b = if rule.require_tools {
        a + " + Tool-Support"@
    } else {
        a
    };
    let c = if rule.require_capabilities@.len() == 0 {
        b
    } else {
        b + " + Capabilities "@ + text::debug_list(text::texts(rule.require_capabilities@))
    };
    if rule.local_only {
        c + " + lokalem Provider"@
    } else {
        c
    }
}

impl Config {
    /// The providers that are defined.
    pub open spec fn defined_provider(self) -> spec_fn(Seq<char>) -> bool {
        |p: Seq<char>| self.providers.at(p) is Some
    }

    /// The models that stand in the catalogue.
    pub open spec fn catalogued(self) -> spec_fn(Seq<char>) -> bool {
        |name: Seq<char>| self.in_catalogue(name)
    }

    /// A complaint for each of the first `n` models whose provider is not defined.
    pub open spec fn provider_issues(self, n: nat) -> Seq<Seq<char>>
        decreases n,
    {
        if n == 0 {
            Seq::empty()
        } else {
            let m = self.models@[n - 1]@;
            self.provider_issues((n - 1) as nat) + complaints(
                "Modell '"@ + m.model + "' verweist auf unbekannten Provider '"@,
                seq![m.provider],
                self.defined_provider(),
            )
        }
    }

    /// A complaint for each of the first `n` rules whose key is no task type.
    pub open spec fn stray_issues(self, n: nat) -> Seq<Seq<char>>
        decreases n,
    {
        if n == 0 {
            Seq::empty()
        } else {
            let before = self.stray_issues((n - 1) as nat);
            let key = self.classification.entries@[n - 1].0@;
            if TaskType::keys().contains(key) {
                before
            } else {
                before.push(
                    "classification-Schlüssel '"@ + key
                        + "' wird vom Klassifikator nie erzeugt"@,
                )
            }
        }
    }

    /// A complaint for each of the first `n` task types without a rule.
    pub open spec fn missing_issues(self, n: nat) -> Seq<Seq<char>>
        decreases n,
    {
        if n == 0 {
            Seq::empty()
        } else {
            let before = self.missing_issues((n - 1) as nat);
            let key = TaskType::keys()[n - 1];
            if self.classification.at(key) is Some {
                before
            } else {
                before.push(
                    "task_type '"@ + key
                        + "' wird klassifiziert, hat aber keine classification-Regel"@,
                )
            }
        }
    }

    /// A complaint for each unknown capability of the first `n` models.
    pub open spec fn model_capability_issues(self, n: nat) -> Seq<Seq<char>>
        decreases n,
    {
        if n == 0 {
            Seq::empty()
        } else {
            let m = self.models@[n - 1]@;
            self.model_capability_issues((n - 1) as nat) + complaints(
                "Modell '"@ + m.model + "' deklariert unbekannte Capability '"@,
                m.capabilities,
                known_capability(),
            )
        }
    }

    /// A complaint for each unknown capability that the first `n` rules require.
    pub open spec fn rule_capability_issues(self, n: nat) -> Seq<Seq<char>>
        decreases n,
    {
        if n == 0 {
            Seq::empty()
        } else {
            let e = self.classification.entries@[n - 1];
            self.rule_capability_issues((n - 1) as nat) + complaints(
                "task_type '"@ + e.0@ + "' verlangt unbekannte Capability '"@,
                text::texts(e.1.require_capabilities@),
                known_capability(),
            )
        }
    }

    /// A complaint for each of the first `n` rules that no model can serve.
    pub open spec fn unsatisfiable_issues(self, n: nat) -> Seq<Seq<char>>
        decreases n,
    {
        if n == 0 {
            Seq::empty()
        } else {
            let before = self.unsatisfiable_issues((n - 1) as nat);
            let e = self.classification.entries@[n - 1];
            if satisfiable(self, e.1) {
                before
            } else {
                before.push(unsatisfiable_text(e.0@, e.1))
            }
        }
    }

    /// A complaint for each of the first `n` aliases of a model that is not in the catalogue.
    pub open spec fn alias_issues(self, n: nat) -> Seq<Seq<char>>
        decreases n,
    {
        if n == 0 {
            Seq::empty()
        } else {
            let e = self.aliases.entries@[n - 1];
            self.alias_issues((n - 1) as nat) + complaints(
                "Alias '"@ + e.0@ + "' zeigt auf unbekanntes Modell '"@,
                seq![e.1@],
                self.catalogued(),
            )
        }
    }

    /// A complaint for each undefined provider that the first `n` projects name.
    pub open spec fn project_issues(self, n: nat) -> Seq<Seq<char>>
        decreases n,
    {
        if n == 0 {
            Seq::empty()
        } else {
            let e = self.projects.entries@[n - 1];
            let head = "Projekt '"@ + e.0@ + "' referenziert unbekannten Provider '"@;
            self.project_issues((n - 1) as nat) + complaints(
                head,
                text::texts(e.1.require_providers@),
                self.defined_provider(),
            ) + complaints(
                head,
                text::texts(e.1.forbid_providers@),
                self.defined_provider(),
            )
        }
    }

    /// Everything that is wrong with the configuration.
    pub open spec fn issues(self) -> Seq<Seq<char>> {
        self.provider_issues(self.models@.len()) + self.stray_issues(
            self.classification.entries@.len(),
        ) + self.missing_issues(5) + self.model_capability_issues(self.models@.len())
            + self.rule_capability_issues(self.classification.entries@.len())
            + self.unsatisfiable_issues(self.classification.entries@.len()) + self.alias_issues(
            self.aliases.entries@.len(),
        ) + self.project_issues(self.projects.entries@.len())
    }

    /// What a rejected configuration is answered.
    pub open spec fn rejection(self) -> Seq<char> {
        "Konfiguration ungültig:\n  - "@ + text::joined(self.issues(), "\n  - "@)
    }

    fn note_unknown_provider(&self, head: &str, provider: &str, errors: &mut Vec<String>)
        ensures
            text::texts(final(errors)@) == text::texts(old(errors)@) + complaints(
                head@,
                seq![provider@],
                self.defined_provider(),
            ),
    {
        proof {
            assert(seq![provider@].drop_last() =~= Seq::empty());
            reveal_with_fuel(complaints, 2);
        }
        if !self.providers.contains_key(provider) {
            let mut s = head.to_owned();
            s.append(provider);
            s.append("'");
            errors.push(s);
        }
        assert(text::texts(errors@) =~= text::texts(old(errors)@) + complaints(
            head@,
            seq![provider@],
            self.defined_provider(),
        ));
    }

    fn note_unknown_providers(&self, head: &str, names: &Vec<String>, errors: &mut Vec<String>)
        ensures
            text::texts(final(errors)@) == text::texts(old(errors)@) + complaints(
                head@,
                text::texts(names@),
                self.defined_provider(),
            ),
    {
        let ghost start = text::texts(errors@);
        let ghost all = text::texts(names@);
        let mut i: usize = 0;
        assert(start =~= start + complaints(
            head@,
            all.subrange(0, 0),
            self.defined_provider(),
        ));
        while i < names.len()
            invariant
                i <= names@.len(),
                all == text::texts(names@),
                text::texts(errors@) == start + complaints(
                    head@,
                    all.subrange(0, i as int),
                    self.defined_provider(),
                ),
            decreases names.len() - i,
        {
            let ghost before = text::texts(errors@);
            assert(all.subrange(0, i + 1).drop_last() =~= all.subrange(0, i as int));
            assert(all.subrange(0, i + 1).last() == names@[i as int]@);
            if !self.providers.contains_key(names[i].as_str()) {
                let mut s = head.to_owned();
                s.append(names[i].as_str());
                s.append("'");
                errors.push(s);
                assert(text::texts(errors@) =~= before.push(s@));
            }
            assert(text::texts(errors@) =~= start + complaints(
                head@,
                all.subrange(0, i + 1),
                self.defined_provider(),
            ));
            i += 1;
        }
        assert(all.subrange(0, i as int) =~= all);
    }

    fn check_providers(&self, errors: &mut Vec<String>)
        ensures
            text::texts(final(errors)@) == text::texts(old(errors)@) + self.provider_issues(
                self.models@.len(),
            ),
    {
        let ghost start = text::texts(errors@);
        let mut i: usize = 0;
        assert(start =~= start + self.provider_issues(0));
        while i < self.models.len()
            invariant
                i <= self.models@.len(),
                text::texts(errors@) == start + self.provider_issues(i as nat),
            decreases self.models.len() - i,
        {
            let m = &self.models[i];
            let mut head = "Modell '".to_owned();
            head.append(m.model.as_str());
            head.append("' verweist auf unbekannten Provider '");
            self.note_unknown_provider(head.as_str(), m.provider.as_str(), errors);
            assert(text::texts(errors@) =~= start + self.provider_issues((i + 1) as nat));
            i += 1;
        }
    }

    fn check_rule_keys(&self, errors: &mut Vec<String>)
        ensures
            text::texts(final(errors)@) == text::texts(old(errors)@) + self.stray_issues(
                self.classification.entries@.len(),
            ) + self.missing_issues(5),
    {
        let ghost start = text::texts(errors@);
        let known = TaskType::all_keys();
        let mut i: usize = 0;
        assert(start =~= start + self.stray_issues(0));
        while i < self.classification.entries.len()
            invariant
                i <= self.classification.entries@.len(),
                text::texts(known@) == TaskType::keys(),
                text::texts(errors@) == start + self.stray_issues(i as nat),
            decreases self.classification.entries.len() - i,
        {
            let ghost before = text::texts(errors@);
            let key = self.classification.entries[i].0.as_str();
            if !text::listed(&known, key) {
                let mut s = "classification-Schlüssel '".to_owned();
                s.append(key);
                s.append("' wird vom Klassifikator nie erzeugt");
                errors.push(s);
                assert(text::texts(errors@) =~= before.push(s@));
            }
            assert(text::texts(errors@) =~= start + self.stray_issues((i + 1) as nat));
            i += 1;
        }
        let ghost middle = text::texts(errors@);
        let mut k: usize = 0;
        assert(known@.len() == 5) by {
            assert(text::texts(known@).len() == 5);
        }
        assert(middle =~= middle + self.missing_issues(0));
        while k < known.len()
            invariant
                k <= known@.len(),
                known@.len() == 5,
                text::texts(known@) == TaskType::keys(),
                text::texts(errors@) == middle + self.missing_issues(k as nat),
            decreases known.len() - k,
        {
            let ghost before = text::texts(errors@);
            assert(text::texts(known@)[k as int] == known@[k as int]@);
            let key = known[k].as_str();
            if !self.classification.contains_key(key) {
                let mut s = "task_type '".to_owned();
                s.append(key);
                s.append("' wird klassifiziert, hat aber keine classification-Regel");
                errors.push(s);
                assert(text::texts(errors@) =~= before.push(s@));
            }
            assert(text::texts(errors@) =~= middle + self.missing_issues((k + 1) as nat));
            k += 1;
        }
    }

    fn check_capabilities(&self, errors: &mut Vec<String>)
        ensures
            text::texts(final(errors)@) == text::texts(old(errors)@)
                + self.model_capability_issues(self.models@.len()) + self.rule_capability_issues(
                self.classification.entries@.len(),
            ),
    {
        let ghost start = text::texts(errors@);
        let mut i: usize = 0;
        assert(start =~= start + self.model_capability_issues(0));
        while i < self.models.len()
            invariant
                i <= self.models@.len(),
                text::texts(errors@) == start + self.model_capability_issues(i as nat),
            decreases self.models.len() - i,
        {
            let m = &self.models[i];
            let mut head = "Modell '".to_owned();
            head.append(m.model.as_str());
            head.append("' deklariert unbekannte Capability '");
            note_unknown_capabilities(head.as_str(), &m.capabilities, errors);
            assert(text::texts(errors@) =~= start + self.model_capability_issues((i + 1) as nat));
            i += 1;
        }
        let ghost middle = text::texts(errors@);
        let mut k: usize = 0;
        assert(middle =~= middle + self.rule_capability_issues(0));
        while k < self.classification.entries.len()
            invariant
                k <= self.classification.entries@.len(),
                text::texts(errors@) == middle + self.rule_capability_issues(k as nat),
            decreases self.classification.entries.len() - k,
        {
            let e = &self.classification.entries[k];
            let mut head = "task_type '".to_owned();
            head.append(e.0.as_str());
            head.append("' verlangt unbekannte Capability '");
            note_unknown_capabilities(head.as_str(), &e.1.require_capabilities, errors);
            assert(text::texts(errors@) =~= middle + self.rule_capability_issues((k + 1) as nat));
            k += 1;
        }
    }

    /// Whether a model can serve a rule.
    fn can_serve(&self, m: &ModelEntry, rule: &TaskRule) -> (r: bool)
        ensures
            r == serves(*self, m@, *rule),
    {
        if m.tier < rule.min_tier {
            return false;
        }
        if rule.require_tools && !m.has_capability("tools") {
            return false;
        }
        let mut i: usize = 0;
        while i < rule.require_capabilities.len()
            invariant
                i <= rule.require_capabilities@.len(),
                forall|c: int|
                    0 <= c < i ==> m@.has((#[trigger] rule.require_capabilities@[c])@),
            decreases rule.require_capabilities.len() - i,
        {
            if !m.has_capability(rule.require_capabilities[i].as_str()) {
                return false;
            }
            i += 1;
        }
        !rule.local_only || self.provider_is_local(m.provider.as_str())
    }

    /// Whether some model of the catalogue can serve a rule.
    fn is_satisfiable(&self, rule: &TaskRule) -> (r: bool)
        ensures
            r == satisfiable(*self, *rule),
    {
        let mut i: usize = 0;
        while i < self.models.len()
            invariant
                i <= self.models@.len(),
                forall|j: int| 0 <= j < i ==> !serves(*self, (#[trigger] self.models@[j])@, *rule),
            decreases self.models.len() - i,
        {
            if self.can_serve(&self.models[i], rule) {
                return true;
            }
            i += 1;
        }
        false
    }

    fn check_satisfiability(&self, errors: &mut Vec<String>)
        ensures
            text::texts(final(errors)@) == text::texts(old(errors)@) + self.unsatisfiable_issues(
                self.classification.entries@.len(),
            ),
    {
        let ghost start = text::texts(errors@);
        let mut i: usize = 0;
        assert(start =~= start + self.unsatisfiable_issues(0));
        while i < self.classification.entries.len()
            invariant
                i <= self.classification.entries@.len(),
                text::texts(errors@) == start + self.unsatisfiable_issues(i as nat),
            decreases self.classification.entries.len() - i,
        {
            let ghost before = text::texts(errors@);
            let e = &self.classification.entries[i];
            if !self.is_satisfiable(&e.1) {
                let s = describe_unsatisfiable(e.0.as_str(), &e.1);
                errors.push(s);
                assert(text::texts(errors@) =~= before.push(s@));
            }
            assert(text::texts(errors@) =~= start + self.unsatisfiable_issues((i + 1) as nat));
            i += 1;
        }
    }

    fn check_aliases(&self, errors: &mut Vec<String>)
        ensures
            text::texts(final(errors)@) == text::texts(old(errors)@) + self.alias_issues(
                self.aliases.entries@.len(),
            ),
    {
        let ghost start = text::texts(errors@);
        let mut i: usize = 0;
        assert(start =~= start + self.alias_issues(0));
        while i < self.aliases.entries.len()
            invariant
                i <= self.aliases.entries@.len(),
                text::texts(errors@) == start + self.alias_issues(i as nat),
            decreases self.aliases.entries.len() - i,
        {
            let ghost before = text::texts(errors@);
            let e = &self.aliases.entries[i];
            proof {
                assert(seq![e.1@].drop_last() =~= Seq::empty());
                reveal_with_fuel(complaints, 2);
            }
            if !self.is_catalog_model(e.1.as_str()) {
                let mut s = "Alias '".to_owned();
                s.append(e.0.as_str());
                s.append("' zeigt auf unbekanntes Modell '");
                s.append(e.1.as_str());
                s.append("'");
                errors.push(s);
                assert(text::texts(errors@) =~= before.push(s@));
            }
            assert(text::texts(errors@) =~= start + self.alias_issues((i + 1) as nat));
            i += 1;
        }
    }

    fn check_projects(&self, errors: &mut Vec<String>)
        ensures
            text::texts(final(errors)@) == text::texts(old(errors)@) + self.project_issues(
                self.projects.entries@.len(),
            ),
    {
        let ghost start = text::texts(errors@);
        let mut i: usize = 0;
        assert(start =~= start + self.project_issues(0));
        while i < self.projects.entries.len()
            invariant
                i <= self.projects.entries@.len(),
                text::texts(errors@) == start + self.project_issues(i as nat),
            decreases self.projects.entries.len() - i,
        {
            let e = &self.projects.entries[i];
            let mut head = "Projekt '".to_owned();
            head.append(e.0.as_str());
            head.append("' referenziert unbekannten Provider '");
            self.note_unknown_providers(head.as_str(), &e.1.require_providers, errors);
            self.note_unknown_providers(head.as_str(), &e.1.forbid_providers, errors);
            assert(text::texts(errors@) =~= start + self.project_issues((i + 1) as nat));
            i += 1;
        }
    }

    /// Checks the configuration and reports everything that is wrong with it at once.
    pub fn validate(&self) -> (r: Result<(), String>)
        ensures
            match r {
                Ok(()) => self.issues().len() == 0,
                Err(message) => self.issues().len() > 0 && message@ == self.rejection(),
            },
    {
        let mut errors: Vec<String> = Vec::new();
        assert(text::texts(errors@) =~= Seq::empty());
        self.check_providers(&mut errors);
        self.check_rule_keys(&mut errors);
        self.check_capabilities(&mut errors);
        self.check_satisfiability(&mut errors);
        self.check_aliases(&mut errors);
        self.check_projects(&mut errors);
        assert(text::texts(errors@) =~= self.issues());
        if errors.len() == 0 {
            Ok(())
        } else {
            let mut message = "Konfiguration ungültig:\n  - ".to_owned();
            let list = text::join(&errors, "\n  - ");
            message.append(list.as_str());
            Err(message)
        }
    }

    /// Whether the provider of model `i` is defined.
    pub open spec fn model_has_provider(self, i: int) -> bool {
        self.providers.at(self.models@[i]@.provider) is Some
    }

    /// Whether the key of rule `i` is a task type.
    pub open spec fn rule_is_reachable(self, i: int) -> bool {
        TaskType::keys().contains(self.classification.entries@[i].0@)
    }

    /// Whether every capability of model `i` is known.
    pub open spec fn model_capabilities_known(self, i: int) -> bool {
        forall|c: int|
            0 <= c < self.models@[i].capabilities@.len() ==> config::known_capabilities().contains(
                (#[trigger] self.models@[i].capabilities@[c])@,
            )
    }

    /// Whether every capability that rule `i` requires is known.
    pub open spec fn rule_capabilities_known(self, i: int) -> bool {
        let required = self.classification.entries@[i].1.require_capabilities@;
        forall|c: int|
            0 <= c < required.len() ==> config::known_capabilities().contains(
                (#[trigger] required[c])@,
            )
    }

    /// Whether some model can serve rule `i`.
    pub open spec fn rule_is_satisfiable(self, i: int) -> bool {
        satisfiable(self, self.classification.entries@[i].1)
    }

    /// Whether alias `i` stands for a model of the catalogue.
    pub open spec fn alias_resolves(self, i: int) -> bool {
        self.in_catalogue(self.aliases.entries@[i].1@)
    }

    /// Whether project `i` names defined providers only.
    pub open spec fn project_providers_defined(self, i: int) -> bool {
        let p = self.projects.entries@[i].1;
        &&& forall|k: int|
            0 <= k < p.require_providers@.len() ==> self.providers.at(
                (#[trigger] p.require_providers@[k])@,
            ) is Some
        &&& forall|k: int|
            0 <= k < p.forbid_providers@.len() ==> self.providers.at(
                (#[trigger] p.forbid_providers@[k])@,
            ) is Some
    }

    /// Whether the parts of the configuration fit each other.
    pub open spec fn consistent(self) -> bool {
        &&& forall|i: int| 0 <= i < self.models@.len() ==> #[trigger] self.model_has_provider(i)
        &&& forall|i: int|
            0 <= i < self.classification.entries@.len() ==> #[trigger] self.rule_is_reachable(i)
        &&& forall|t: TaskType| self.classification.at(#[trigger] t.key()) is Some
        &&& forall|i: int|
            0 <= i < self.models@.len() ==> #[trigger] self.model_capabilities_known(i)
        &&& forall|i: int|
            0 <= i < self.classification.entries@.len()
                ==> #[trigger] self.rule_capabilities_known(i)
        &&& forall|i: int|
            0 <= i < self.classification.entries@.len() ==> #[trigger] self.rule_is_satisfiable(i)
        &&& forall|i: int|
            0 <= i < self.aliases.entries@.len() ==> #[trigger] self.alias_resolves(i)
        &&& forall|i: int|
            0 <= i < self.projects.entries@.len() ==> #[trigger] self.project_providers_defined(i)
    }

    proof fn lemma_provider_issues(self, n: nat)
        ensures
            self.provider_issues(n).len() == 0 <==> forall|i: int| 0 <= i < n ==> #[trigger] self.model_has_provider(i),
        decreases n,
    {
        if n > 0 {
            self.lemma_provider_issues((n - 1) as nat);
            let last: int = n - 1;
            let m = self.models@[last]@;
            let names = seq![m.provider];
            lemma_complaints(
                "Modell '"@ + m.model + "' verweist auf unbekannten Provider '"@,
                names,
                self.defined_provider(),
            );
            assert(names[0] == m.provider);
            if self.provider_issues(n).len() == 0 {
                assert(forall|i: int| 0 <= i < n ==> #[trigger] self.model_has_provider(i));
            }
            if forall|i: int| 0 <= i < n ==> #[trigger] self.model_has_provider(i) {
                assert(self.model_has_provider(last));
            }
        }
    }

    proof fn lemma_stray_issues(self, n: nat)
        ensures
            self.stray_issues(n).len() == 0 <==> forall|i: int| 0 <= i < n ==> #[trigger] self.rule_is_reachable(i),
        decreases n,
    {
        if n > 0 {
            self.lemma_stray_issues((n - 1) as nat);
            let last: int = n - 1;
            if self.stray_issues(n).len() == 0 {
                assert(forall|i: int| 0 <= i < n ==> #[trigger] self.rule_is_reachable(i));
            }
            if forall|i: int| 0 <= i < n ==> #[trigger] self.rule_is_reachable(i) {
                assert(self.rule_is_reachable(last));
            }
        }
    }

    proof fn lemma_model_capability_issues(self, n: nat)
        ensures
            self.model_capability_issues(n).len() == 0 <==> forall|i: int| 0 <= i < n ==> #[trigger] self.model_capabilities_known(i),
        decreases n,
    {
        if n > 0 {
            self.lemma_model_capability_issues((n - 1) as nat);
            let last: int = n - 1;
            let m = self.models@[last];
            lemma_complaints(
                "Modell '"@ + m@.model + "' deklariert unbekannte Capability '"@,
                m@.capabilities,
                known_capability(),
            );
            assert(forall|c: int|
                0 <= c < m.capabilities@.len() ==> m@.capabilities[c] == (
                #[trigger] m.capabilities@[c])@);
            if self.model_capabilities_known(last) {
                assert forall|c: int| 0 <= c < m@.capabilities.len() implies known_capability()(
                    #[trigger] m@.capabilities[c],
                ) by {
                    assert(m@.capabilities[c] == m.capabilities@[c]@);
                }
            }
            if complaints(
                "Modell '"@ + m@.model + "' deklariert unbekannte Capability '"@,
                m@.capabilities,
                known_capability(),
            ).len() == 0 {
                assert forall|c: int|
                    0 <= c < m.capabilities@.len() implies config::known_capabilities().contains(
                    (#[trigger] m.capabilities@[c])@,
                ) by {
                    assert(known_capability()(m@.capabilities[c]));
                }
            }
            if self.model_capability_issues(n).len() == 0 {
                assert(forall|i: int| 0 <= i < n ==> #[trigger] self.model_capabilities_known(i));
            }
            if forall|i: int| 0 <= i < n ==> #[trigger] self.model_capabilities_known(i) {
                assert(self.model_capabilities_known(last));
            }
        }
    }

    proof fn lemma_rule_capability_issues(self, n: nat)
        ensures
            self.rule_capability_issues(n).len() == 0 <==> forall|i: int| 0 <= i < n ==> #[trigger] self.rule_capabilities_known(i),
        decreases n,
    {
        if n > 0 {
            self.lemma_rule_capability_issues((n - 1) as nat);
            let last: int = n - 1;
            let e = self.classification.entries@[last];
            let required = e.1.require_capabilities@;
            let names = text::texts(required);
            let head = "task_type '"@ + e.0@ + "' verlangt unbekannte Capability '"@;
            lemma_complaints(head, names, known_capability());
            if self.rule_capabilities_known(last) {
                assert forall|c: int| 0 <= c < names.len() implies known_capability()(
                    #[trigger] names[c],
                ) by {
                    assert(names[c] == required[c]@);
                }
            }
            if complaints(head, names, known_capability()).len() == 0 {
                assert forall|c: int|
                    0 <= c < required.len() implies config::known_capabilities().contains(
                    (#[trigger] required[c])@,
                ) by {
                    assert(known_capability()(names[c]));
                }
            }
            if self.rule_capability_issues(n).len() == 0 {
                assert(forall|i: int| 0 <= i < n ==> #[trigger] self.rule_capabilities_known(i));
            }
            if forall|i: int| 0 <= i < n ==> #[trigger] self.rule_capabilities_known(i) {
                assert(self.rule_capabilities_known(last));
            }
        }
    }

    proof fn lemma_unsatisfiable_issues(self, n: nat)
        ensures
            self.unsatisfiable_issues(n).len() == 0 <==> forall|i: int| 0 <= i < n ==> #[trigger] self.rule_is_satisfiable(i),
        decreases n,
    {
        if n > 0 {
            self.lemma_unsatisfiable_issues((n - 1) as nat);
            let last: int = n - 1;
            if self.unsatisfiable_issues(n).len() == 0 {
                assert(forall|i: int| 0 <= i < n ==> #[trigger] self.rule_is_satisfiable(i));
            }
            if forall|i: int| 0 <= i < n ==> #[trigger] self.rule_is_satisfiable(i) {
                assert(self.rule_is_satisfiable(last));
            }
        }
    }

    proof fn lemma_alias_issues(self, n: nat)
        ensures
            self.alias_issues(n).len() == 0 <==> forall|i: int| 0 <= i < n ==> #[trigger] self.alias_resolves(i),
        decreases n,
    {
        if n > 0 {
            self.lemma_alias_issues((n - 1) as nat);
            let last: int = n - 1;
            let e = self.aliases.entries@[last];
            let names = seq![e.1@];
            lemma_complaints(
                "Alias '"@ + e.0@ + "' zeigt auf unbekanntes Modell '"@,
                names,
                self.catalogued(),
            );
            assert(names[0] == e.1@);
            if self.alias_issues(n).len() == 0 {
                assert(forall|i: int| 0 <= i < n ==> #[trigger] self.alias_resolves(i));
            }
            if forall|i: int| 0 <= i < n ==> #[trigger] self.alias_resolves(i) {
                assert(self.alias_resolves(last));
            }
        }
    }

    proof fn lemma_project_issues(self, n: nat)
        ensures
            self.project_issues(n).len() == 0 <==> forall|i: int| 0 <= i < n ==> #[trigger] self.project_providers_defined(i),
        decreases n,
    {
        if n > 0 {
            self.lemma_project_issues((n - 1) as nat);
            let last: int = n - 1;
            let e = self.projects.entries@[last];
            let head = "Projekt '"@ + e.0@ + "' referenziert unbekannten Provider '"@;
            let required = text::texts(e.1.require_providers@);
            let forbidden = text::texts(e.1.forbid_providers@);
            let fine = self.defined_provider();
            lemma_complaints(head, required, fine);
            lemma_complaints(head, forbidden, fine);
            if self.project_providers_defined(last) {
                assert forall|k: int| 0 <= k < required.len() implies fine(
                    #[trigger] required[k],
                ) by {
                    assert(required[k] == e.1.require_providers@[k]@);
                }
                assert forall|k: int| 0 <= k < forbidden.len() implies fine(
                    #[trigger] forbidden[k],
                ) by {
                    assert(forbidden[k] == e.1.forbid_providers@[k]@);
                }
            }
            if complaints(head, required, fine).len() == 0 && complaints(
                head,
                forbidden,
                fine,
            ).len() == 0 {
                assert forall|k: int|
                    0 <= k < e.1.require_providers@.len() implies self.providers.at(
                    (#[trigger] e.1.require_providers@[k])@,
                ) is Some by {
                    assert(fine(required[k]));
                }
                assert forall|k: int|
                    0 <= k < e.1.forbid_providers@.len() implies self.providers.at(
                    (#[trigger] e.1.forbid_providers@[k])@,
                ) is Some by {
                    assert(fine(forbidden[k]));
                }
            }
            if self.project_issues(n).len() == 0 {
                assert(forall|i: int| 0 <= i < n ==> #[trigger] self.project_providers_defined(i));
            }
            if forall|i: int| 0 <= i < n ==> #[trigger] self.project_providers_defined(i) {
                assert(self.project_providers_defined(last));
            }
        }
    }

    proof fn lemma_missing_issues(self)
        ensures
            self.missing_issues(5).len() == 0 <==> forall|t: TaskType|
                self.classification.at(#[trigger] t.key()) is Some,
    {
        reveal_with_fuel(Config::missing_issues, 6);
        let keys = TaskType::keys();
        assert(keys[0] == TaskType::PrivateSensitive.key());
        assert(keys[1] == TaskType::Architecture.key());
        assert(keys[2] == TaskType::CodeReview.key());
        assert(keys[3] == TaskType::Summarize.key());
        assert(keys[4] == TaskType::SimpleText.key());
        if self.missing_issues(5).len() == 0 {
            assert forall|t: TaskType| self.classification.at(#[trigger] t.key()) is Some by {
                match t {
                    TaskType::PrivateSensitive => {},
                    TaskType::Architecture => {},
                    TaskType::CodeReview => {},
                    TaskType::Summarize => {},
                    TaskType::SimpleText => {},
                }
            }
        }
    }

    /// A configuration is accepted exactly where its parts fit each other: every model has a
    /// defined provider, rules and task types correspond, only known capabilities are named,
    /// every rule can be served by some model, every alias stands for a model of the catalogue,
    /// and projects name defined providers only.
    pub proof fn law_accepted_iff_consistent(self)
        ensures
            self.issues().len() == 0 <==> self.consistent(),
    {
        self.lemma_provider_issues(self.models@.len());
        self.lemma_stray_issues(self.classification.entries@.len());
        self.lemma_missing_issues();
        self.lemma_model_capability_issues(self.models@.len());
        self.lemma_rule_capability_issues(self.classification.entries@.len());
        self.lemma_unsatisfiable_issues(self.classification.entries@.len());
        self.lemma_alias_issues(self.aliases.entries@.len());
        self.lemma_project_issues(self.projects.entries@.len());
    }
}

fn note_unknown_capabilities(head: &str, names: &Vec<String>, errors: &mut Vec<String>)
    ensures
        text::texts(final(errors)@) == text::texts(old(errors)@) + complaints(
            head@,
            text::texts(names@),
            known_capability(),
        ),
{
    let ghost start = text::texts(errors@);
    let ghost all = text::texts(names@);
    let mut i: usize = 0;
    assert(start =~= start + complaints(head@, all.subrange(0, 0), known_capability()));
    while i < names.len()
        invariant
            i <= names@.len(),
            all == text::texts(names@),
            text::texts(errors@) == start + complaints(
                head@,
                all.subrange(0, i as int),
                known_capability(),
            ),
        decreases names.len() - i,
    {
        let ghost before = text::texts(errors@);
        assert(all.subrange(0, i + 1).drop_last() =~= all.subrange(0, i as int));
        assert(all.subrange(0, i + 1).last() == names@[i as int]@);
        if !config::is_known_capability(names[i].as_str()) {
            let mut s = head.to_owned();
            s.append(names[i].as_str());
            s.append("'");
            errors.push(s);
            assert(text::texts(errors@) =~= before.push(s@));
        }
        assert(text::texts(errors@) =~= start + complaints(
            head@,
            all.subrange(0, i + 1),
            known_capability(),
        ));
        i += 1;
    }
    assert(all.subrange(0, i as int) =~= all);
}

fn describe_unsatisfiable(key: &str, rule: &TaskRule) -> (s: String)
    ensures
        s@ == unsatisfiable_text(key@, *rule),
{
    let mut s = "task_type '".to_owned();
    s.append(key);
    s.append("' ist nicht erfüllbar: kein Modell mit tier>=");
    let tier = text::number(rule.min_tier as u64);
    s.append(tier.as_str());
    if rule.require_tools {
        s.append(" + Tool-Support");
    }
    if rule.require_capabilities.len() > 0 {
        s.append(" + Capabilities ");
        let list = text::format_list(&rule.require_capabilities);
        s.append(list.as_str());
    }
    if rule.local_only {
        s.append(" + lokalem Provider");
    }
    s
}

/// Whether a model has the tier that a rule wants, takes tools and offers every capability that it
/// requires, and belongs to a local provider where the rule admits no other.
pub open spec fn can_serve(cfg: Config, m: ModelEntry, rule: TaskRule) -> bool {
    let offered = text::texts(m.capabilities@);
    &&& m.tier >= rule.min_tier
    &&& rule.require_tools ==> m.supports_tools || offered.contains("tools"@)
    &&& forall|c: int|
        0 <= c < rule.require_capabilities@.len() ==> offered.contains(
            (#[trigger] rule.require_capabilities@[c])@,
        ) || (rule.require_capabilities@[c]@ == "tools"@ && m.supports_tools)
    &&& rule.local_only ==> (cfg.providers.at(m.provider@) matches Some(p) && p.local)
}

proof fn lemma_can_serve(cfg: Config, m: ModelEntry, rule: TaskRule)
    ensures
        can_serve(cfg, m, rule) <==> serves(cfg, m@, rule),
{
    assert(m@.capabilities == text::texts(m.capabilities@));
}

/// What an accepted configuration keeps to. Every model has a provider that is defined, and only
/// capabilities with a meaning; every type of task has a rule and every rule a type of task; every
/// rule requires only such capabilities, and some model can serve it; every alias stands for a
/// model, by its name alone or behind its provider; and projects name only defined providers.
pub proof fn law_accepted_configuration(cfg: Config)
    requires
        cfg.issues().len() == 0,
    ensures
        forall|i: int|
            0 <= i < cfg.models@.len() ==> cfg.providers.at(
                (#[trigger] cfg.models@[i]).provider@,
            ) is Some,
        forall|i: int, c: int|
            0 <= i < cfg.models@.len() && 0 <= c < cfg.models@[i].capabilities@.len() ==> {
                let name = (#[trigger] cfg.models@[i].capabilities@[c])@;
                name == "tools"@
                    || name == "json_schema"@
                    || name == "vision"@
                    || name == "streaming"@
                    || name == "streaming_usage"@
                    || name == "large_context"@
                    || name == "reasoning"@
                    || name == "strict_tool_schema"@
            },
        cfg.classification.at("private_sensitive"@) is Some,
        cfg.classification.at("architecture"@) is Some,
        cfg.classification.at("code_review"@) is Some,
        cfg.classification.at("summarize"@) is Some,
        cfg.classification.at("simple_text"@) is Some,
        forall|i: int|
            0 <= i < cfg.classification.entries@.len() ==> {
                let key = (#[trigger] cfg.classification.entries@[i]).0@;
                key == "private_sensitive"@
                    || key == "architecture"@
                    || key == "code_review"@
                    || key == "summarize"@
                    || key == "simple_text"@
            },
        forall|i: int, c: int|
            0 <= i < cfg.classification.entries@.len() && 0 <= c
                < cfg.classification.entries@[i].1.require_capabilities@.len() ==> {
                let name = (#[trigger] cfg.classification.entries@[i].1.require_capabilities@[c])@;
                name == "tools"@
                    || name == "json_schema"@
                    || name == "vision"@
                    || name == "streaming"@
                    || name == "streaming_usage"@
                    || name == "large_context"@
                    || name == "reasoning"@
                    || name == "strict_tool_schema"@
            },
        forall|i: int|
            #![trigger cfg.classification.entries@[i]]
            0 <= i < cfg.classification.entries@.len() ==> exists|j: int|
                0 <= j < cfg.models@.len() && can_serve(
                    cfg,
                    #[trigger] cfg.models@[j],
                    cfg.classification.entries@[i].1,
                ),
        forall|i: int|
            #![trigger cfg.aliases.entries@[i]]
            0 <= i < cfg.aliases.entries@.len() ==> exists|j: int|
                0 <= j < cfg.models@.len() && ((#[trigger] cfg.models@[j]).model@
                    == cfg.aliases.entries@[i].1@ || cfg.models@[j].provider@ + "/"@
                    + cfg.models@[j].model@ == cfg.aliases.entries@[i].1@),
        forall|i: int, k: int|
            0 <= i < cfg.projects.entries@.len() && 0 <= k
                < cfg.projects.entries@[i].1.require_providers@.len() ==> cfg.providers.at(
                (#[trigger] cfg.projects.entries@[i].1.require_providers@[k])@,
            ) is Some,
        forall|i: int, k: int|
            0 <= i < cfg.projects.entries@.len() && 0 <= k
                < cfg.projects.entries@[i].1.forbid_providers@.len() ==> cfg.providers.at(
                (#[trigger] cfg.projects.entries@[i].1.forbid_providers@[k])@,
            ) is Some,
{
    cfg.law_accepted_iff_consistent();
    law_known_names();
    assert forall|i: int| 0 <= i < cfg.models@.len() implies cfg.providers.at(
        (#[trigger] cfg.models@[i]).provider@,
    ) is Some by {
        assert(cfg.model_has_provider(i));
    }
    assert forall|i: int, c: int|
        0 <= i < cfg.models@.len() && 0 <= c
            < cfg.models@[i].capabilities@.len() implies config::known_capabilities().contains(
        (#[trigger] cfg.models@[i].capabilities@[c])@,
    ) by {
        assert(cfg.model_capabilities_known(i));
    }
    assert(cfg.classification.at(TaskType::PrivateSensitive.key()) is Some);
    assert(cfg.classification.at(TaskType::Architecture.key()) is Some);
    assert(cfg.classification.at(TaskType::CodeReview.key()) is Some);
    assert(cfg.classification.at(TaskType::Summarize.key()) is Some);
    assert(cfg.classification.at(TaskType::SimpleText.key()) is Some);
    assert forall|i: int|
        0 <= i < cfg.classification.entries@.len() implies TaskType::keys().contains(
        (#[trigger] cfg.classification.entries@[i]).0@,
    ) by {
        assert(cfg.rule_is_reachable(i));
    }
    assert forall|i: int, c: int|
        0 <= i < cfg.classification.entries@.len() && 0 <= c
            < cfg.classification.entries@[i].1.require_capabilities@.len() implies config::known_capabilities().contains(
        (#[trigger] cfg.classification.entries@[i].1.require_capabilities@[c])@,
    ) by {
        assert(cfg.rule_capabilities_known(i));
    }
    assert forall|i: int|
        #![trigger cfg.classification.entries@[i]]
        0 <= i < cfg.classification.entries@.len() implies exists|j: int|
        0 <= j < cfg.models@.len() && can_serve(
            cfg,
            #[trigger] cfg.models@[j],
            cfg.classification.entries@[i].1,
        ) by {
        assert(cfg.rule_is_satisfiable(i));
        let rule = cfg.classification.entries@[i].1;
        let j = choose|j: int|
            0 <= j < cfg.models@.len() && serves(cfg, (#[trigger] cfg.models@[j])@, rule);
        lemma_can_serve(cfg, cfg.models@[j], rule);
    }
    assert forall|i: int|
        #![trigger cfg.aliases.entries@[i]]
        0 <= i < cfg.aliases.entries@.len() implies exists|j: int|
        0 <= j < cfg.models@.len() && ((#[trigger] cfg.models@[j]).model@
            == cfg.aliases.entries@[i].1@ || cfg.models@[j].provider@ + "/"@ + cfg.models@[j].model@
            == cfg.aliases.entries@[i].1@) by {
        assert(cfg.alias_resolves(i));
        let name = cfg.aliases.entries@[i].1@;
        let j = choose|j: int|
            0 <= j < cfg.models@.len() && (#[trigger] cfg.models@[j])@.answers_to(name);
        assert(cfg.models@[j].model@ == name || cfg.models@[j].provider@ + "/"@
            + cfg.models@[j].model@ == name);
    }
    assert forall|i: int, k: int|
        0 <= i < cfg.projects.entries@.len() && 0 <= k
            < cfg.projects.entries@[i].1.require_providers@.len() implies cfg.providers.at(
        (#[trigger] cfg.projects.entries@[i].1.require_providers@[k])@,
    ) is Some by {
        assert(cfg.project_providers_defined(i));
    }
    assert forall|i: int, k: int|
        0 <= i < cfg.projects.entries@.len() && 0 <= k
            < cfg.projects.entries@[i].1.forbid_providers@.len() implies cfg.providers.at(
        (#[trigger] cfg.projects.entries@[i].1.forbid_providers@[k])@,
    ) is Some by {
        assert(cfg.project_providers_defined(i));
    }
}

/// Which capabilities a configuration may use, and which keys a rule may have.
pub proof fn law_known_names()
    ensures
        forall|c: Seq<char>| #[trigger]
            config::known_capabilities().contains(c) <==> c == "tools"@
                || c == "json_schema"@
                || c == "vision"@
                || c == "streaming"@
                || c == "streaming_usage"@
                || c == "large_context"@
                || c == "reasoning"@
                || c == "strict_tool_schema"@,
        forall|k: Seq<char>| #[trigger]
            TaskType::keys().contains(k) <==> k == "private_sensitive"@
                || k == "architecture"@
                || k == "code_review"@
                || k == "summarize"@
                || k == "simple_text"@,
{
    let caps = config::known_capabilities();
    let keys = TaskType::keys();
    assert(caps[0] == "tools"@);
    assert(caps[1] == "json_schema"@);
    assert(caps[2] == "vision"@);
    assert(caps[3] == "streaming"@);
    assert(caps[4] == "streaming_usage"@);
    assert(caps[5] == "large_context"@);
    assert(caps[6] == "reasoning"@);
    assert(caps[7] == "strict_tool_schema"@);
    assert(keys[0] == "private_sensitive"@);
    assert(keys[1] == "architecture"@);
    assert(keys[2] == "code_review"@);
    assert(keys[3] == "summarize"@);
    assert(keys[4] == "simple_text"@);
    assert(caps.len() == 8 && keys.len() == 5);
}

/// A configuration whose parts fit each other is accepted: nothing else is held against it.
pub proof fn law_sound_configuration_is_accepted(cfg: Config)
    requires
        forall|i: int|
            0 <= i < cfg.models@.len() ==> cfg.providers.at(
                (#[trigger] cfg.models@[i]).provider@,
            ) is Some,
        forall|i: int, c: int|
            0 <= i < cfg.models@.len() && 0 <= c < cfg.models@[i].capabilities@.len() ==> {
                let name = (#[trigger] cfg.models@[i].capabilities@[c])@;
                name == "tools"@
                    || name == "json_schema"@
                    || name == "vision"@
                    || name == "streaming"@
                    || name == "streaming_usage"@
                    || name == "large_context"@
                    || name == "reasoning"@
                    || name == "strict_tool_schema"@
            },
        cfg.classification.at("private_sensitive"@) is Some,
        cfg.classification.at("architecture"@) is Some,
        cfg.classification.at("code_review"@) is Some,
        cfg.classification.at("summarize"@) is Some,
        cfg.classification.at("simple_text"@) is Some,
        forall|i: int|
            0 <= i < cfg.classification.entries@.len() ==> {
                let key = (#[trigger] cfg.classification.entries@[i]).0@;
                key == "private_sensitive"@
                    || key == "architecture"@
                    || key == "code_review"@
                    || key == "summarize"@
                    || key == "simple_text"@
            },
        forall|i: int, c: int|
            0 <= i < cfg.classification.entries@.len() && 0 <= c
                < cfg.classification.entries@[i].1.require_capabilities@.len() ==> {
                let name = (#[trigger] cfg.classification.entries@[i].1.require_capabilities@[c])@;
                name == "tools"@
                    || name == "json_schema"@
                    || name == "vision"@
                    || name == "streaming"@
                    || name == "streaming_usage"@
                    || name == "large_context"@
                    || name == "reasoning"@
                    || name == "strict_tool_schema"@
            },
        forall|i: int|
            #![trigger cfg.classification.entries@[i]]
            0 <= i < cfg.classification.entries@.len() ==> exists|j: int|
                0 <= j < cfg.models@.len() && can_serve(
                    cfg,
                    #[trigger] cfg.models@[j],
                    cfg.classification.entries@[i].1,
                ),
        forall|i: int|
            #![trigger cfg.aliases.entries@[i]]
            0 <= i < cfg.aliases.entries@.len() ==> exists|j: int|
                0 <= j < cfg.models@.len() && ((#[trigger] cfg.models@[j]).model@
                    == cfg.aliases.entries@[i].1@ || cfg.models@[j].provider@ + "/"@
                    + cfg.models@[j].model@ == cfg.aliases.entries@[i].1@),
        forall|i: int, k: int|
            0 <= i < cfg.projects.entries@.len() && 0 <= k
                < cfg.projects.entries@[i].1.require_providers@.len() ==> cfg.providers.at(
                (#[trigger] cfg.projects.entries@[i].1.require_providers@[k])@,
            ) is Some,
        forall|i: int, k: int|
            0 <= i < cfg.projects.entries@.len() && 0 <= k
                < cfg.projects.entries@[i].1.forbid_providers@.len() ==> cfg.providers.at(
                (#[trigger] cfg.projects.entries@[i].1.forbid_providers@[k])@,
            ) is Some,
    ensures
        cfg.issues().len() == 0,
{
    cfg.law_accepted_iff_consistent();
    law_known_names();
    assert forall|i: int| 0 <= i < cfg.models@.len() implies #[trigger] cfg.model_has_provider(i)
        && cfg.model_capabilities_known(i) by {
        assert(cfg.providers.at(cfg.models@[i].provider@) is Some);
    }
    assert forall|t: TaskType| cfg.classification.at(#[trigger] t.key()) is Some by {
        match t {
            TaskType::PrivateSensitive => {},
            TaskType::Architecture => {},
            TaskType::CodeReview => {},
            TaskType::Summarize => {},
            TaskType::SimpleText => {},
        }
    }
    assert forall|i: int|
        0 <= i < cfg.classification.entries@.len() implies #[trigger] cfg.rule_is_reachable(i)
        && cfg.rule_capabilities_known(i) && cfg.rule_is_satisfiable(i) by {
        let rule = cfg.classification.entries@[i].1;
        let j = choose|j: int|
            0 <= j < cfg.models@.len() && can_serve(cfg, #[trigger] cfg.models@[j], rule);
        lemma_can_serve(cfg, cfg.models@[j], rule);
        assert(serves(cfg, cfg.models@[j]@, rule));
        assert forall|c: int|
            0 <= c
                < rule.require_capabilities@.len() implies config::known_capabilities().contains(
            (#[trigger] rule.require_capabilities@[c])@,
        ) by {
            let name = cfg.classification.entries@[i].1.require_capabilities@[c]@;
        }
    }
    assert forall|i: int|
        0 <= i < cfg.models@.len() implies #[trigger] cfg.model_capabilities_known(i) by {
        assert(cfg.model_has_provider(i));
    }
    assert forall|i: int|
        0 <= i
            < cfg.classification.entries@.len() implies #[trigger] cfg.rule_capabilities_known(
        i,
    ) by {
        assert(cfg.rule_is_reachable(i));
    }
    assert forall|i: int|
        0 <= i < cfg.classification.entries@.len() implies #[trigger] cfg.rule_is_satisfiable(
        i,
    ) by {
        assert(cfg.rule_is_reachable(i));
    }
    assert forall|i: int| 0 <= i < cfg.aliases.entries@.len() implies #[trigger] cfg.alias_resolves(
        i,
    ) by {
        let name = cfg.aliases.entries@[i].1@;
        let j = choose|j: int|
            0 <= j < cfg.models@.len() && ((#[trigger] cfg.models@[j]).model@ == name
                || cfg.models@[j].provider@ + "/"@ + cfg.models@[j].model@ == name);
        assert(cfg.models@[j]@.answers_to(name));
    }
    assert forall|i: int|
        0 <= i
            < cfg.projects.entries@.len() implies #[trigger] cfg.project_providers_defined(i) by {
        let p = cfg.projects.entries@[i].1;
        assert forall|k: int| 0 <= k < p.require_providers@.len() implies cfg.providers.at(
            (#[trigger] p.require_providers@[k])@,
        ) is Some by {
            assert(cfg.providers.at(cfg.projects.entries@[i].1.require_providers@[k]@) is Some);
        }
        assert forall|k: int| 0 <= k < p.forbid_providers@.len() implies cfg.providers.at(
            (#[trigger] p.forbid_providers@[k])@,
        ) is Some by {
            assert(cfg.providers.at(cfg.projects.entries@[i].1.forbid_providers@[k]@) is Some);
        }
    }
}

} // verus!
