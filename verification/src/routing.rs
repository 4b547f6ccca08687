//! Which agent provider and models a tab uses: the window's agent
//! configuration, a tab's routing on top of it, and the routing a tab gets
//! when it has none of its own.
use vstd::prelude::*;
use crate::text::{chars_of, trim_chars, trim_seq};

verus! {

/// The agent providers, in the order the defaults are read.
#[derive(Debug, Clone, Copy, PartialEq, Eq, Structural)]
pub enum ProviderKind {
    Anthropic,
    OpenAI,
    ChatGPT,
    GitHubCopilot,
    OpenAICompatible,
    MiniMax,
    MiniMaxAnthropic,
    Moonshot,
    MoonshotAnthropic,
    ZAI,
    ZAIAnthropic,
    DeepSeek,
    Groq,
    Cohere,
    Gemini,
    Ollama,
    OpenRouter,
    Perplexity,
    Mistral,
    Together,
    XAI,
}

/// Every provider, in the order the routing defaults are read.
pub open spec fn provider_order() -> Seq<ProviderKind> {
    seq![
        ProviderKind::Anthropic,
        ProviderKind::OpenAI,
        ProviderKind::ChatGPT,
        ProviderKind::GitHubCopilot,
        ProviderKind::OpenAICompatible,
        ProviderKind::MiniMax,
        ProviderKind::MiniMaxAnthropic,
        ProviderKind::Moonshot,
        ProviderKind::MoonshotAnthropic,
        ProviderKind::ZAI,
        ProviderKind::ZAIAnthropic,
        ProviderKind::DeepSeek,
        ProviderKind::Groq,
        ProviderKind::Cohere,
        ProviderKind::Gemini,
        ProviderKind::Ollama,
        ProviderKind::OpenRouter,
        ProviderKind::Perplexity,
        ProviderKind::Mistral,
        ProviderKind::Together,
        ProviderKind::XAI,
    ]
}

fn provider_list() -> (r: Vec<ProviderKind>)
    ensures
        r@ == provider_order(),
{
    let r = vec![
        ProviderKind::Anthropic,
        ProviderKind::OpenAI,
        ProviderKind::ChatGPT,
        ProviderKind::GitHubCopilot,
        ProviderKind::OpenAICompatible,
        ProviderKind::MiniMax,
        ProviderKind::MiniMaxAnthropic,
        ProviderKind::Moonshot,
        ProviderKind::MoonshotAnthropic,
        ProviderKind::ZAI,
        ProviderKind::ZAIAnthropic,
        ProviderKind::DeepSeek,
        ProviderKind::Groq,
        ProviderKind::Cohere,
        ProviderKind::Gemini,
        ProviderKind::Ollama,
        ProviderKind::OpenRouter,
        ProviderKind::Perplexity,
        ProviderKind::Mistral,
        ProviderKind::Together,
        ProviderKind::XAI,
    ];
    assert(r@ =~= provider_order());
    r
}

/// The settings of one provider: the model it uses, if one is set, and
/// the endpoint its models are listed from.
#[derive(Debug, Clone, PartialEq, Eq)]
pub struct ProviderSettings {
    pub provider: ProviderKind,
    pub model: Option<String>,
    pub base_url: Option<String>,
}

/// A provider's settings as (provider, model, base url).
pub type SettingsV = (ProviderKind, Option<Seq<char>>, Option<Seq<char>>);

impl ProviderSettings {
    pub open spec fn view_tuple(&self) -> SettingsV {
        (
            self.provider,
            match self.model {
                Some(m) => Some(m@),
                None => None,
            },
            match self.base_url {
                Some(u) => Some(u@),
                None => None,
            },
        )
    }
}

/// A list of provider settings as values.
pub open spec fn settings_view(s: Seq<ProviderSettings>) -> Seq<SettingsV> {
    s.map_values(|x: ProviderSettings| x.view_tuple())
}

/// A list of model overrides as values.
pub open spec fn overrides_view(s: Seq<(ProviderKind, String)>) -> Seq<(ProviderKind, Seq<char>)> {
    s.map_values(|o: (ProviderKind, String)| (o.0, o.1@))
}

/// The agent configuration: the provider in use and each provider's
/// settings (a provider's settings are the first entry naming it).
#[derive(Debug, Clone, PartialEq, Eq)]
pub struct AgentConfig {
    pub provider: ProviderKind,
    pub providers: Vec<ProviderSettings>,
}

/// A configuration as (provider, settings).
pub type ConfigV = (ProviderKind, Seq<SettingsV>);

impl AgentConfig {
    pub open spec fn view_tuple(&self) -> ConfigV {
        (self.provider, settings_view(self.providers@))
    }
}

/// Index of the first settings entry for `p`.
pub open spec fn settings_index(s: Seq<SettingsV>, p: ProviderKind) -> Option<int>
    decreases s.len(),
{
    if s.len() == 0 {
        None
    } else {
        match settings_index(s.drop_last(), p) {
            Some(i) => Some(i),
            None => if s.last().0 == p {
                Some(s.len() - 1)
            } else {
                None
            },
        }
    }
}

/// The model configured for `p`.
pub open spec fn configured_model(s: Seq<SettingsV>, p: ProviderKind) -> Option<Seq<char>> {
    match settings_index(s, p) {
        Some(i) => s[i].1,
        None => None,
    }
}

/// A tab's own routing: the provider it picked, and the models it picked
/// for providers, as (provider, model).
#[derive(Debug, Clone, PartialEq, Eq)]
pub struct AgentRouting {
    pub provider: Option<ProviderKind>,
    pub model_overrides: Vec<(ProviderKind, String)>,
}

/// A routing as (provider, overrides).
pub type RoutingV = (Option<ProviderKind>, Seq<(ProviderKind, Seq<char>)>);

impl AgentRouting {
    pub open spec fn view_tuple(&self) -> RoutingV {
        (
            self.provider,
            overrides_view(self.model_overrides@),
        )
    }

    /// A routing that picks nothing.
    pub open spec fn spec_is_empty(&self) -> bool {
        self.provider is None && self.model_overrides@.len() == 0
    }

    /// Whether this routing picks nothing.
    pub fn is_empty(&self) -> (r: bool)
        ensures
            r == self.spec_is_empty(),
    {
        self.provider.is_none() && self.model_overrides.len() == 0
    }
}

/// The overrides the defaults give: each provider, in [`provider_order`],
/// that has a model configured, with that model.
pub open spec fn default_overrides(s: Seq<SettingsV>, order: Seq<ProviderKind>) -> Seq<(ProviderKind, Seq<char>)>
    decreases order.len(),
{
    if order.len() == 0 {
        Seq::empty()
    } else {
        let rest = default_overrides(s, order.drop_last());
        match configured_model(s, order.last()) {
            Some(m) => rest.push((order.last(), m)),
            None => rest,
        }
    }
}

/// The routing a tab gets when it has none of its own: the configured
/// provider, and each provider's configured model.
pub open spec fn default_routing(c: ConfigV) -> RoutingV {
    (Some(c.0), default_overrides(c.1, provider_order()))
}

fn clone_opt(o: &Option<String>) -> (r: Option<String>)
    ensures
        r == *o,
{
    match o {
        Some(s) => Some(s.clone()),
        None => None,
    }
}

fn find_settings(s: &Vec<ProviderSettings>, p: ProviderKind) -> (r: Option<usize>)
    ensures
        r matches Some(k) ==> settings_index(settings_view(s@), p) == Some(k as int) && k < s@.len()
            && s@[k as int].provider == p,
        r is None ==> settings_index(settings_view(s@), p) is None,
{
    let ghost sv = settings_view(s@);
    let mut i: usize = 0;
    while i < s.len()
        invariant
            i <= s@.len(),
            sv == settings_view(s@),
            settings_index(sv.take(i as int), p) is None,
        decreases s@.len() - i,
    {
        proof {
            assert(sv.take(i + 1).drop_last() =~= sv.take(i as int));
        }
        if s[i].provider == p {
            proof {
                assert(sv[i as int].0 == s@[i as int].provider);
                lemma_settings_index_prefix(sv, p, i as int + 1);
            }
            return Some(i);
        }
        i = i + 1;
    }
    assert(sv.take(s@.len() as int) =~= sv);
    None
}

proof fn lemma_settings_index_prefix(s: Seq<SettingsV>, p: ProviderKind, k: int)
    requires
        0 < k <= s.len(),
        settings_index(s.take(k - 1), p) is None,
        s[k - 1].0 == p,
    ensures
        settings_index(s, p) == Some(k - 1),
    decreases s.len(),
{
    if s.len() == k {
        assert(s.drop_last() =~= s.take(k - 1));
    } else {
        assert(s.drop_last().take(k - 1) =~= s.take(k - 1));
        lemma_settings_index_prefix(s.drop_last(), p, k);
    }
}

/// The routing a tab gets when it has none of its own (see
/// [`default_routing`]).
pub fn default_agent_routing(config: &AgentConfig) -> (r: AgentRouting)
    ensures
        r.view_tuple() == default_routing(config.view_tuple()),
{
    let order = provider_list();
    let ghost sv = config.view_tuple().1;
    let mut overrides: Vec<(ProviderKind, String)> = Vec::new();
    let mut i: usize = 0;
    while i < order.len()
        invariant
            i <= order@.len(),
            order@ == provider_order(),
            sv == settings_view(config.providers@),
            overrides_view(overrides@) == default_overrides(
                sv,
                order@.take(i as int),
            ),
        decreases order@.len() - i,
    {
        let p = order[i];
        let ghost before = overrides@;
        proof {
            assert(order@.take(i + 1).drop_last() =~= order@.take(i as int));
            assert(order@.take(i + 1).last() == p);
        }
        let found = find_settings(&config.providers, p);
        let model = match found {
            Some(k) => clone_opt(&config.providers[k].model),
            None => None,
        };
        proof {
            match found {
                Some(k) => {
                    assert(settings_index(sv, p) == Some(k as int));
                    assert(sv[k as int] == config.providers@[k as int].view_tuple());
                    assert(model == config.providers@[k as int].model);
                    assert(configured_model(sv, p) == sv[k as int].1);
                },
                None => {},
            }
            assert(configured_model(sv, p) == match model {
                Some(m) => Some(m@),
                None => None::<Seq<char>>,
            });
        }
        match model {
            Some(m) => {
                overrides.push((p, m));
                proof {
                    assert(overrides_view(overrides@) =~= overrides_view(before).push(
                        (p, m@),
                    ));
                }
            },
            None => {},
        }
        i = i + 1;
    }
    assert(order@.take(order@.len() as int) =~= order@);
    AgentRouting { provider: Some(config.provider), model_overrides: overrides }
}

/// The settings after setting `p`'s model to `m`: its first entry, or a new
/// entry (no endpoint) when it has none.
pub open spec fn with_model(s: Seq<SettingsV>, p: ProviderKind, m: Seq<char>) -> Seq<SettingsV> {
    match settings_index(s, p) {
        Some(i) => s.update(i, (p, Some(m), s[i].2)),
        None => s.push((p, Some(m), None)),
    }
}

/// The settings after a routing's model overrides, in order; blank models
/// are skipped.
pub open spec fn apply_overrides(s: Seq<SettingsV>, overrides: Seq<(ProviderKind, Seq<char>)>) -> Seq<SettingsV>
    decreases overrides.len(),
{
    if overrides.len() == 0 {
        s
    } else {
        let before = apply_overrides(s, overrides.drop_last());
        let o = overrides.last();
        if trim_seq(o.1).len() == 0 {
            before
        } else {
            with_model(before, o.0, o.1)
        }
    }
}

/// The configuration a tab runs with: the base configuration, its provider
/// replaced by the routing's when it picks one, and the routing's models set.
pub open spec fn routed_config(base: ConfigV, routing: RoutingV) -> ConfigV {
    (
        match routing.0 {
            Some(p) => p,
            None => base.0,
        },
        apply_overrides(base.1, routing.1),
    )
}

/// The configuration a tab runs with (see [`routed_config`]).
pub fn apply_agent_routing(base: &AgentConfig, routing: &AgentRouting) -> (r: AgentConfig)
    ensures
        r.view_tuple() == routed_config(base.view_tuple(), routing.view_tuple()),
{
    let mut providers: Vec<ProviderSettings> = Vec::new();
    let mut j: usize = 0;
    while j < base.providers.len()
        invariant
            j <= base.providers@.len(),
            settings_view(providers@) == settings_view(base.providers@.take(
                j as int,
            )),
            providers@.len() == j,
        decreases base.providers@.len() - j,
    {
        let x = &base.providers[j];
        let ghost before = providers@;
        providers.push(
            ProviderSettings {
                provider: x.provider,
                model: clone_opt(&x.model),
                base_url: clone_opt(&x.base_url),
            },
        );
        proof {
            assert(providers@[j as int].view_tuple() == base.providers@[j as int].view_tuple());
            assert(providers@ == before.push(providers@[j as int]));
            assert(settings_view(providers@) =~= settings_view(before).push(
                base.providers@[j as int].view_tuple(),
            ));
            assert(base.providers@.take(j + 1) =~= base.providers@.take(j as int).push(
                base.providers@[j as int],
            ));
            assert(settings_view(providers@) =~= settings_view(base.providers@.take(
                j + 1,
            )));
        }
        j = j + 1;
    }
    assert(base.providers@.take(base.providers@.len() as int) =~= base.providers@);
    let ghost ov = routing.view_tuple().1;
    let mut i: usize = 0;
    while i < routing.model_overrides.len()
        invariant
            i <= routing.model_overrides@.len(),
            ov == overrides_view(routing.model_overrides@),
            settings_view(providers@) == apply_overrides(
                base.view_tuple().1,
                ov.take(i as int),
            ),
        decreases routing.model_overrides@.len() - i,
    {
        proof {
            assert(ov.take(i + 1).drop_last() =~= ov.take(i as int));
            assert(ov.take(i + 1).last() == ov[i as int]);
        }
        let p = routing.model_overrides[i].0;
        let m = &routing.model_overrides[i].1;
        let mc = chars_of(m.as_str());
        if trim_chars(&mc).len() > 0 {
            let ghost sv = settings_view(providers@);
            match find_settings(&providers, p) {
                Some(k) => {
                    let url = clone_opt(&providers[k].base_url);
                    providers.set(k, ProviderSettings { provider: p, model: Some(m.clone()), base_url: url });
                    proof {
            assert(settings_view(providers@) =~= sv.update(
                            k as int,
                            (p, Some(m@), sv[k as int].2),
                        ));
                    }
                },
                None => {
                    providers.push(ProviderSettings { provider: p, model: Some(m.clone()), base_url: None });
                    proof {
            assert(settings_view(providers@) =~= sv.push(
                            (p, Some(m@), None),
                        ));
                    }
                },
            }
        }
        i = i + 1;
    }
    assert(ov.take(ov.len() as int) =~= ov);
    let provider = match routing.provider {
        Some(p) => p,
        None => base.provider,
    };
    AgentConfig { provider, providers }
}

/// The routing after the tab picks provider `p`.
pub fn set_provider_override(routing: &mut AgentRouting, p: ProviderKind)
    ensures
        final(routing).view_tuple() == (Some(p), old(routing).view_tuple().1),
{
    routing.provider = Some(p);
}

/// The overrides after the tab picks model `m` for `p`: the first override
/// for `p` takes the model, or a new one is added last.
pub open spec fn with_override(s: Seq<(ProviderKind, Seq<char>)>, p: ProviderKind, m: Seq<char>) -> Seq<(ProviderKind, Seq<char>)> {
    match override_index(s, p) {
        Some(i) => s.update(i, (p, m)),
        None => s.push((p, m)),
    }
}

/// Index of the first override for `p`.
pub open spec fn override_index(s: Seq<(ProviderKind, Seq<char>)>, p: ProviderKind) -> Option<int>
    decreases s.len(),
{
    if s.len() == 0 {
        None
    } else {
        match override_index(s.drop_last(), p) {
            Some(i) => Some(i),
            None => if s.last().0 == p {
                Some(s.len() - 1)
            } else {
                None
            },
        }
    }
}

proof fn lemma_override_index_prefix(s: Seq<(ProviderKind, Seq<char>)>, p: ProviderKind, k: int)
    requires
        0 < k <= s.len(),
        override_index(s.take(k - 1), p) is None,
        s[k - 1].0 == p,
    ensures
        override_index(s, p) == Some(k - 1),
    decreases s.len(),
{
    if s.len() == k {
        assert(s.drop_last() =~= s.take(k - 1));
    } else {
        assert(s.drop_last().take(k - 1) =~= s.take(k - 1));
        lemma_override_index_prefix(s.drop_last(), p, k);
    }
}

/// The routing after the tab picks model `m` for provider `p` (see
/// [`with_override`]).
pub fn set_model_override(routing: &mut AgentRouting, p: ProviderKind, m: String)
    ensures
        final(routing).view_tuple() == (
            old(routing).view_tuple().0,
            with_override(old(routing).view_tuple().1, p, m@),
        ),
{
    let ghost sv = routing.view_tuple().1;
    let mut i: usize = 0;
    while i < routing.model_overrides.len()
        invariant
            i <= routing.model_overrides@.len(),
            sv == overrides_view(routing.model_overrides@),
            sv == old(routing).view_tuple().1,
            routing.provider == old(routing).provider,
            override_index(sv.take(i as int), p) is None,
        decreases routing.model_overrides@.len() - i,
    {
        proof {
            assert(sv.take(i + 1).drop_last() =~= sv.take(i as int));
        }
        if routing.model_overrides[i].0 == p {
            proof {
                assert(sv[i as int].0 == routing.model_overrides@[i as int].0);
                lemma_override_index_prefix(sv, p, i as int + 1);
            }
            routing.model_overrides.set(i, (p, m));
            proof {
                assert(overrides_view(routing.model_overrides@) =~= sv.update(i as int, (p, m@)));
            }
            return;
        }
        i = i + 1;
    }
    assert(sv.take(sv.len() as int) =~= sv);
    routing.model_overrides.push((p, m));
    assert(overrides_view(routing.model_overrides@) =~= sv.push((p, m@)));
}

} // verus!
