use super::{AbilityTags, AbilityTaskDef};
use vstd::prelude::*;

verus! {

/// Defines shared ability rules, the cost and cooldown effects of type `E` committed on
/// activation, and the startup tasks.
///
/// Startup tasks run in definition order. The default definition has empty tags and tasks, no
/// cost or cooldown, and disallows multiple active instances.
pub struct GameplayAbility<E> {
    ability_tags: AbilityTags,
    startup_tasks: Vec<AbilityTaskDef<E>>,
    cooldown: Option<E>,
    cost: Option<E>,
    allow_multiple_instances: bool,
}

impl<E> GameplayAbility<E> {
    /// The identity and activation tag rules.
    pub closed spec fn tags(self) -> AbilityTags {
        self.ability_tags
    }

    /// The tasks started during activation, in definition order.
    pub closed spec fn startup_tasks(self) -> Seq<AbilityTaskDef<E>> {
        self.startup_tasks@
    }

    /// The cooldown effect committed to the owner, if any.
    pub closed spec fn cooldown(self) -> Option<E> {
        self.cooldown
    }

    /// The cost effect committed to the owner, if any.
    pub closed spec fn cost(self) -> Option<E> {
        self.cost
    }

    /// Whether the same granted ability may have concurrent active instances.
    pub closed spec fn multiple_instances(self) -> bool {
        self.allow_multiple_instances
    }

    /// Creates an ability definition with all configuration supplied explicitly.
    pub fn new(
        ability_tags: AbilityTags,
        startup_tasks: Vec<AbilityTaskDef<E>>,
        cooldown: Option<E>,
        cost: Option<E>,
        allow_multiple_instances: bool,
    ) -> (ability: Self)
        ensures
            ability.tags() == ability_tags,
            ability.startup_tasks() == startup_tasks@,
            ability.cooldown() == cooldown,
            ability.cost() == cost,
            ability.multiple_instances() == allow_multiple_instances,
    {
        GameplayAbility { ability_tags, startup_tasks, cooldown, cost, allow_multiple_instances }
    }

    /// Replaces the tag configuration.
    pub fn with_tags(self, tags: AbilityTags) -> (ability: Self)
        ensures
            ability.tags() == tags,
            ability.startup_tasks() == self.startup_tasks(),
            ability.cooldown() == self.cooldown(),
            ability.cost() == self.cost(),
            ability.multiple_instances() == self.multiple_instances(),
    {
        GameplayAbility { ability_tags: tags, ..self }
    }

    /// Replaces the startup tasks.
    pub fn with_startup_tasks(self, tasks: Vec<AbilityTaskDef<E>>) -> (ability: Self)
        ensures
            ability.startup_tasks() == tasks@,
            ability.tags() == self.tags(),
            ability.cooldown() == self.cooldown(),
            ability.cost() == self.cost(),
            ability.multiple_instances() == self.multiple_instances(),
    {
        GameplayAbility { startup_tasks: tasks, ..self }
    }

    /// Sets the cooldown effect committed to the owner at activation.
    pub fn with_cooldown(self, cooldown: E) -> (ability: Self)
        ensures
            ability.cooldown() == Some(cooldown),
            ability.tags() == self.tags(),
            ability.startup_tasks() == self.startup_tasks(),
            ability.cost() == self.cost(),
            ability.multiple_instances() == self.multiple_instances(),
    {
        GameplayAbility { cooldown: Some(cooldown), ..self }
    }

    /// Sets the cost effect committed to the owner at activation.
    pub fn with_cost(self, cost: E) -> (ability: Self)
        ensures
            ability.cost() == Some(cost),
            ability.tags() == self.tags(),
            ability.startup_tasks() == self.startup_tasks(),
            ability.cooldown() == self.cooldown(),
            ability.multiple_instances() == self.multiple_instances(),
    {
        GameplayAbility { cost: Some(cost), ..self }
    }

    /// Sets whether the same granted ability may have concurrent active instances.
    pub fn with_allow_multiple_instances(self, allow_multiple_instances: bool) -> (ability: Self)
        ensures
            ability.multiple_instances() == allow_multiple_instances,
            ability.tags() == self.tags(),
            ability.startup_tasks() == self.startup_tasks(),
            ability.cooldown() == self.cooldown(),
            ability.cost() == self.cost(),
    {
        GameplayAbility { allow_multiple_instances, ..self }
    }

    /// Returns the identity and activation tag rules.
    pub fn get_tags(&self) -> (tags: &AbilityTags)
        ensures
            *tags == self.tags(),
    {
        &self.ability_tags
    }

    /// Returns the tasks started during activation, in definition order.
    pub fn get_startup_tasks(&self) -> (tasks: &[AbilityTaskDef<E>])
        ensures
            tasks@ == self.startup_tasks(),
    {
        self.startup_tasks.as_slice()
    }

    /// Returns the cooldown effect committed to the owner, if any.
    pub fn get_cooldown(&self) -> (cooldown: Option<&E>)
        ensures
            cooldown is Some == self.cooldown() is Some,
            cooldown matches Some(c) ==> *c == self.cooldown()->0,
    {
        self.cooldown.as_ref()
    }

    /// Returns the cost effect committed to the owner, if any.
    pub fn get_cost(&self) -> (cost: Option<&E>)
        ensures
            cost is Some == self.cost() is Some,
            cost matches Some(c) ==> *c == self.cost()->0,
    {
        self.cost.as_ref()
    }

    /// Returns whether the same granted ability may have concurrent active instances.
    pub fn allow_multiple_instances(&self) -> (allowed: bool)
        ensures
            allowed == self.multiple_instances(),
    {
        self.allow_multiple_instances
    }
}

impl<E> Default for GameplayAbility<E> {
    /// Creates a definition with empty tags and tasks, no cost or cooldown, and a single
    /// active instance at a time.
    fn default() -> (ability: Self)
        ensures
            ability.tags().ability_asset_tags_view().len() == 0,
            ability.tags().cancel_abilities_with_tags_view().len() == 0,
            ability.tags().block_abilities_with_tags_view().len() == 0,
            ability.tags().activation_required_tags_view().len() == 0,
            ability.tags().activation_blocked_tags_view().len() == 0,
            ability.startup_tasks().len() == 0,
            ability.cooldown() is None,
            ability.cost() is None,
            !ability.multiple_instances(),
    {
        GameplayAbility {
            ability_tags: AbilityTags::default(),
            startup_tasks: Vec::new(),
            cooldown: None,
            cost: None,
            allow_multiple_instances: false,
        }
    }
}

} // verus!
