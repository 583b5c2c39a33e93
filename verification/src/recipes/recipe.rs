use vstd::prelude::*;
use crate::recipes::item::Item;

verus! {

/// A way to make one item out of others in a given time.
#[derive(Debug)]
pub struct Recipe {
    /// The place of the recipe in the catalog.
    pub id: u32,
    pub ingredients: Vec<Item>,
    pub result: Item,
    /// Time that one craft takes, in milliseconds.
    pub duration: u64,
}

impl Recipe {
    /// The moment at which a craft started at `now` is done.
    pub open spec fn finish_time(&self, now: u64) -> u64 {
        if now + self.duration <= u64::MAX {
            (now + self.duration) as u64
        } else {
            u64::MAX
        }
    }

    /// The craft of this recipe started at `now`.
    pub open spec fn spec_start(&self, now: u64) -> ActiveRecipe {
        ActiveRecipe { recipe_id: self.id, finish_at: self.finish_time(now) }
    }

    /// Starts a craft of this recipe at `now`, a time in milliseconds.
    pub fn start(&self, now: u64) -> (craft: ActiveRecipe)
        ensures
            craft == self.spec_start(now),
    {
        let finish_at = if self.duration <= u64::MAX - now {
            now + self.duration
        } else {
            u64::MAX
        };
        ActiveRecipe { recipe_id: self.id, finish_at }
    }
}

/// A craft in progress.
#[derive(Debug, Clone, Copy, PartialEq, Eq, Structural)]
pub struct ActiveRecipe {
    /// The recipe that is being crafted.
    pub recipe_id: u32,
    /// The moment at which the craft is done, in milliseconds.
    pub finish_at: u64,
}

impl ActiveRecipe {
    /// Whether the craft is done at `now`.
    pub fn is_finished(&self, now: u64) -> (done: bool)
        ensures
            done == (now >= self.finish_at),
    {
        now >= self.finish_at
    }
}

/// The recipes of the game, each at the place that its id names.
#[derive(Debug)]
pub struct Recipes {
    pub all: Vec<Recipe>,
}

impl Recipes {
    /// Every recipe stands at the place of its id, and no id is `u32::MAX`,
    /// which stands for "no recipe" where ids are stored.
    pub open spec fn wf(&self) -> bool {
        &&& self.all@.len() < u32::MAX
        &&& forall|i: int| 0 <= i < self.all@.len() ==> (#[trigger] self.all@[i]).id == i
    }

    /// Whether the catalog is well formed.
    pub fn is_well_formed(&self) -> (ok: bool)
        ensures
            ok == self.wf(),
    {
        if self.all.len() >= u32::MAX as usize {
            return false;
        }
        let mut i: usize = 0;
        while i < self.all.len()
            invariant
                0 <= i <= self.all@.len(),
                self.all@.len() < u32::MAX,
                forall|k: int| 0 <= k < i ==> (#[trigger] self.all@[k]).id == k,
            decreases self.all@.len() - i,
        {
            if self.all[i].id as usize != i {
                return false;
            }
            i += 1;
        }
        true
    }

    /// Whether the catalog has a recipe `id`.
    pub open spec fn has(&self, id: u32) -> bool {
        id < self.all@.len()
    }

    /// The recipe `id`, if the catalog has it.
    pub fn get(&self, id: u32) -> (recipe: Option<&Recipe>)
        ensures
            recipe == if self.has(id) {
                Some(&self.all@[id as int])
            } else {
                None
            },
    {
        if (id as usize) < self.all.len() {
            Some(&self.all[id as usize])
        } else {
            None
        }
    }
}

} // verus!
