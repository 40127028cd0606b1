//! Composing an agent, and finding the mistakes in a composition before it
//! runs.

use vstd::prelude::*;

use crate::message::{Error, ModelSpec};
use crate::text::{clone_strings, lists, texts};

verus! {

/// What an agent is composed of. What a host attaches is known here by name.
#[derive(Debug)]
pub struct AgentConfig {
    pub name: String,
    pub system_prompt: String,
    pub model: Option<ModelSpec>,
    /// The ids of the drivers, each there once.
    pub drivers: Vec<String>,
    /// The ids of the capabilities, in the order they were attached.
    pub capabilities: Vec<String>,
    /// How many iterations a turn may take, where that was set.
    pub max_iterations: Option<usize>,
}

/// An agent that can run.
#[derive(Debug)]
pub struct Agent {
    pub config: AgentConfig,
}

/// Puts an agent together.
#[derive(Debug)]
pub struct AgentBuilder {
    pub config: AgentConfig,
    /// The tools that were attached directly.
    pub tools: Vec<String>,
}

/// The texts with one added, unless it is there already.
pub open spec fn with_id(ids: Seq<Seq<char>>, id: Seq<char>) -> Seq<Seq<char>> {
    if ids.contains(id) {
        ids
    } else {
        ids.push(id)
    }
}

fn add_id(ids: &mut Vec<String>, id: &str)
    ensures
        texts(final(ids)@) == with_id(texts(old(ids)@), id@),
{
    let ghost before = texts(ids@);
    if !lists(ids, id) {
        ids.push(id.to_owned());
        assert(texts(ids@) =~= before.push(id@));
    }
}

/// The drivers of an agent: those it was given, and the bundled ones.
pub open spec fn with_bundled(drivers: Seq<Seq<char>>) -> Seq<Seq<char>> {
    with_id(with_id(drivers, "openai"@), "anthropic"@)
}

/// The capabilities of an agent: those it was given, and one that holds the
/// tools that were attached directly, if there are any.
pub open spec fn with_tools(capabilities: Seq<Seq<char>>, tools: Seq<Seq<char>>) -> Seq<Seq<char>> {
    if tools.len() == 0 {
        capabilities
    } else {
        capabilities.push("tools"@)
    }
}

/// Whether a failure names a driver that is missing and those that there are.
pub open spec fn is_unknown(e: Error, missing: Seq<char>, there: Seq<Seq<char>>) -> bool {
    e matches Error::UnknownDriver { id, registered } && id@ == missing && texts(registered@)
        == there
}

/// The bundled drivers are there unless the agent brings its own under the
/// same id.
pub fn register_bundled_drivers(drivers: &mut Vec<String>)
    ensures
        texts(final(drivers)@) == with_bundled(texts(old(drivers)@)),
{
    add_id(drivers, "openai");
    add_id(drivers, "anthropic");
}

/// Find a driver by its id. The failure says what is missing and, since a
/// mistyped name is the usual cause, what is registered.
pub fn find_driver(drivers: &Vec<String>, id: &str) -> (r: Result<(), Error>)
    ensures
        r is Ok <==> texts(drivers@).contains(id@),
        r matches Err(e) ==> is_unknown(e, id@, texts(drivers@)),
{
    if lists(drivers, id) {
        Ok(())
    } else {
        Err(Error::UnknownDriver { id: id.to_owned(), registered: clone_strings(drivers) })
    }
}

impl AgentBuilder {
    /// An agent called `agent`, without instructions and without a model.
    pub fn new() -> (r: Self)
        ensures
            r.config.name@ == "agent"@,
            r.config.system_prompt@ == Seq::<char>::empty(),
            r.config.model is None,
            r.config.drivers@.len() == 0,
            r.config.capabilities@.len() == 0,
            r.config.max_iterations is None,
            r.tools@.len() == 0,
    {
        AgentBuilder {
            config: AgentConfig {
                name: "agent".to_owned(),
                system_prompt: String::new(),
                model: None,
                drivers: Vec::new(),
                capabilities: Vec::new(),
                max_iterations: None,
            },
            tools: Vec::new(),
        }
    }

    /// Name the agent.
    pub fn name(self, name: &str) -> (r: Self)
        ensures
            r.config.name@ == name@,
            r == (AgentBuilder {
                config: AgentConfig { name: r.config.name, ..self.config },
                ..self
            }),
    {
        let mut r = self;
        r.config.name = name.to_owned();
        r
    }

    /// The agent's own instructions.
    pub fn system_prompt(self, prompt: &str) -> (r: Self)
        ensures
            r.config.system_prompt@ == prompt@,
            r == (AgentBuilder {
                config: AgentConfig { system_prompt: r.config.system_prompt, ..self.config },
                ..self
            }),
    {
        let mut r = self;
        r.config.system_prompt = prompt.to_owned();
        r
    }

    /// The model, which is required.
    pub fn model(self, model: ModelSpec) -> (r: Self)
        ensures
            r == (AgentBuilder {
                config: AgentConfig { model: Some(model), ..self.config },
                ..self
            }),
    {
        let mut r = self;
        r.config.model = Some(model);
        r
    }

    /// Attach a capability.
    pub fn capability(self, id: &str) -> (r: Self)
        ensures
            texts(r.config.capabilities@) == texts(self.config.capabilities@).push(id@),
            r == (AgentBuilder {
                config: AgentConfig { capabilities: r.config.capabilities, ..self.config },
                ..self
            }),
    {
        let mut r = self;
        r.config.capabilities.push(id.to_owned());
        assert(texts(r.config.capabilities@) =~= texts(self.config.capabilities@).push(id@));
        r
    }

    /// Attach a single tool.
    pub fn tool(self, name: &str) -> (r: Self)
        ensures
            texts(r.tools@) == texts(self.tools@).push(name@),
            r.config == self.config,
    {
        let mut r = self;
        r.tools.push(name.to_owned());
        assert(texts(r.tools@) =~= texts(self.tools@).push(name@));
        r
    }

    /// Register a driver, in place of any of the same id.
    pub fn driver(self, id: &str) -> (r: Self)
        ensures
            texts(r.config.drivers@) == with_id(texts(self.config.drivers@), id@),
            r == (AgentBuilder {
                config: AgentConfig { drivers: r.config.drivers, ..self.config },
                ..self
            }),
    {
        let mut r = self;
        add_id(&mut r.config.drivers, id);
        r
    }

    /// How many iterations a turn may take.
    pub fn max_iterations(self, max_iterations: usize) -> (r: Self)
        ensures
            r == (AgentBuilder {
                config: AgentConfig { max_iterations: Some(max_iterations), ..self.config },
                ..self
            }),
    {
        let mut r = self;
        r.config.max_iterations = Some(max_iterations);
        r
    }

    /// Finish the agent. It fails without a model, and without a driver for
    /// the one that was set, naming those that there are.
    pub fn build(self) -> (r: Result<Agent, Error>)
        ensures
            match self.config.model {
                None => r matches Err(Error::InvalidAgent(text)) && text@
                    == "a model is required — call .model(...)"@,
                Some(model) => if with_bundled(texts(self.config.drivers@)).contains(
                    model.provider@,
                ) {
                    r matches Ok(agent) && agent.wf() && texts(agent.config.drivers@) == with_bundled(
                        texts(self.config.drivers@),
                    ) && texts(agent.config.capabilities@) == with_tools(
                        texts(self.config.capabilities@),
                        texts(self.tools@),
                    ) && agent.config == (AgentConfig {
                        drivers: agent.config.drivers,
                        capabilities: agent.config.capabilities,
                        ..self.config
                    })
                } else {
                    r matches Err(e) && is_unknown(
                        e,
                        model.provider@,
                        with_bundled(texts(self.config.drivers@)),
                    )
                },
            },
    {
        let AgentBuilder { config, tools } = self;
        let mut config = config;
        let provider = match &config.model {
            Some(model) => model.provider.clone(),
            None => {
                return Err(
                    Error::InvalidAgent("a model is required — call .model(...)".to_owned()),
                );
            },
        };
        if tools.len() > 0 {
            config.capabilities.push("tools".to_owned());
        }
        assert(texts(config.capabilities@) =~= with_tools(
            texts(self.config.capabilities@),
            texts(self.tools@),
        ));
        register_bundled_drivers(&mut config.drivers);
        match find_driver(&config.drivers, provider.as_str()) {
            Ok(_) => Ok(Agent { config }),
            Err(e) => Err(e),
        }
    }
}

impl Agent {
    /// Every agent has a model, and a driver for it.
    pub open spec fn wf(&self) -> bool {
        self.config.model matches Some(model) && texts(self.config.drivers@).contains(
            model.provider@,
        )
    }

    /// Start putting an agent together.
    pub fn builder() -> (r: AgentBuilder)
        ensures
            r.config.name@ == "agent"@,
            r.config.system_prompt@ == Seq::<char>::empty(),
            r.config.model is None,
            r.config.drivers@.len() == 0,
            r.config.capabilities@.len() == 0,
            r.config.max_iterations is None,
            r.tools@.len() == 0,
    {
        AgentBuilder::new()
    }

    /// Everything the agent is composed of.
    pub fn config(&self) -> (r: &AgentConfig)
        ensures
            *r == self.config,
    {
        &self.config
    }

    /// The agent's own model.
    pub fn model(&self) -> (r: &ModelSpec)
        requires
            self.wf(),
        ensures
            self.config.model == Some(*r),
    {
        match &self.config.model {
            Some(model) => model,
            None => vstd::pervasive::unreached(),
        }
    }

    /// What is attached, in the order it was.
    pub fn capabilities(&self) -> (r: &Vec<String>)
        ensures
            *r == self.config.capabilities,
    {
        &self.config.capabilities
    }

    /// The driver of the agent's own model, which `build` made sure of.
    pub fn driver_for_model(&self) -> (r: Option<&str>)
        ensures
            self.wf() ==> (r matches Some(id) && id@ == self.config.model->0.provider@),
            !self.wf() ==> r is None,
    {
        match &self.config.model {
            Some(model) => {
                if lists(&self.config.drivers, model.provider.as_str()) {
                    Some(model.provider.as_str())
                } else {
                    None
                }
            },
            None => None,
        }
    }

    /// The agent's name.
    pub fn name(&self) -> (r: &str)
        ensures
            r@ == self.config.name@,
    {
        self.config.name.as_str()
    }
}

/// An agent that was built has a model and a driver for it, so that a turn
/// never fails for want of either.
pub proof fn built_agents_can_run(builder: AgentBuilder, agent: Agent)
    requires
        builder.config.model is Some,
        with_bundled(texts(builder.config.drivers@)).contains(
            builder.config.model->0.provider@,
        ),
        texts(agent.config.drivers@) == with_bundled(texts(builder.config.drivers@)),
        agent.config.model == builder.config.model,
    ensures
        agent.wf(),
{
}

/// The bundled services need no wiring: an agent on one of them always builds.
pub proof fn bundled_services_need_no_wiring(drivers: Seq<Seq<char>>)
    ensures
        with_bundled(drivers).contains("openai"@),
        with_bundled(drivers).contains("anthropic"@),
        forall|id: Seq<char>| drivers.contains(id) ==> #[trigger] with_bundled(drivers).contains(id),
{
    let first = with_id(drivers, "openai"@);
    let all = with_bundled(drivers);
    assert(first.contains("openai"@)) by {
        if !drivers.contains("openai"@) {
            assert(first[drivers.len() as int] == "openai"@);
        }
    }
    assert(all.contains("anthropic"@)) by {
        if !first.contains("anthropic"@) {
            assert(all[first.len() as int] == "anthropic"@);
        }
    }
    assert forall|id: Seq<char>| first.contains(id) implies #[trigger] all.contains(id) by {
        let i = choose|i: int| 0 <= i < first.len() && first[i] == id;
        assert(all[i] == id);
    }
    assert forall|id: Seq<char>| drivers.contains(id) implies #[trigger] all.contains(id) by {
        let i = choose|i: int| 0 <= i < drivers.len() && drivers[i] == id;
        assert(first[i] == id);
        assert(first.contains(id));
    }
}

/// An id that is added is there afterwards, once where none was there twice;
/// what was there stays where it was, and nothing else comes in.
pub proof fn an_id_is_added_once(ids: Seq<Seq<char>>, id: Seq<char>)
    ensures
        with_id(ids, id).contains(id),
        ids.len() <= with_id(ids, id).len() <= ids.len() + 1,
        with_id(ids, id).take(ids.len() as int) == ids,
        ids.contains(id) ==> with_id(ids, id) == ids,
        forall|other: Seq<char>| #[trigger]
            with_id(ids, id).contains(other) ==> other == id || ids.contains(other),
        ids.no_duplicates() ==> with_id(ids, id).no_duplicates(),
{
    let all = with_id(ids, id);
    assert(all.take(ids.len() as int) =~= ids);
    if !ids.contains(id) {
        assert(all[ids.len() as int] == id);
        assert forall|other: Seq<char>| #[trigger] all.contains(other) implies other == id
            || ids.contains(other) by {
            let i = choose|i: int| 0 <= i < all.len() && all[i] == other;
            if i < ids.len() {
                assert(ids[i] == other);
            }
        }
    }
}

/// An agent has the drivers that it was given, first, and besides them only
/// bundled ones; no driver is there twice.
pub proof fn bundled_drivers_replace_none(drivers: Seq<Seq<char>>)
    ensures
        with_bundled(drivers).take(drivers.len() as int) == drivers,
        forall|id: Seq<char>| #[trigger]
            with_bundled(drivers).contains(id) ==> drivers.contains(id) || id == "openai"@ || id
                == "anthropic"@,
        drivers.no_duplicates() ==> with_bundled(drivers).no_duplicates(),
{
    let first = with_id(drivers, "openai"@);
    an_id_is_added_once(drivers, "openai"@);
    an_id_is_added_once(first, "anthropic"@);
    assert(with_bundled(drivers).take(drivers.len() as int) =~= first.take(drivers.len() as int));
}

/// The capabilities of an agent are those that were attached, in order, and
/// behind them one for the tools that were attached directly, if there are
/// any.
pub proof fn direct_tools_become_a_capability(
    capabilities: Seq<Seq<char>>,
    tools: Seq<Seq<char>>,
)
    ensures
        with_tools(capabilities, tools).take(capabilities.len() as int) == capabilities,
        tools.len() == 0 ==> with_tools(capabilities, tools).len() == capabilities.len(),
        tools.len() > 0 ==> with_tools(capabilities, tools).len() == capabilities.len() + 1
            && with_tools(capabilities, tools).last() == "tools"@,
{
    assert(with_tools(capabilities, tools).take(capabilities.len() as int) =~= capabilities);
}

/// The failure to find a driver names the one that is missing, and those that
/// there are.
pub proof fn a_missing_driver_is_named(e: Error, missing: Seq<char>, there: Seq<Seq<char>>)
    ensures
        is_unknown(e, missing, there) <==> (e is UnknownDriver && e->id@ == missing && texts(
            e->registered@,
        ) == there),
{
}

} // verus!
