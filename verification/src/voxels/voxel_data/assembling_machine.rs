use vstd::prelude::*;
use crate::bytes::{
    coords_list_at, coords_list_bytes, lemma_coords_list_round_trip, lemma_slots_round_trip,
    lemma_u32_at_window, push_coords_list, push_slots, push_u32, read_coords_list, read_slot,
    read_u32, slot_at, slot_tag_ok, slots_at, slots_bytes, slots_ok, u32_at, u32_bytes,
    DecodeError,
};
use crate::recipes::item::{drawn, held_of, put_in, take_across, Item, PossibleItem};
use crate::recipes::recipe::{ActiveRecipe, Recipe, Recipes};
use crate::world::global_coords::GlobalCoords;

verus! {

/// Number of slots that hold ingredients; they come first.
pub const INGREDIENT_LENGTH: usize = 3;

/// Number of slots that hold results; they come last.
pub const RESULT_LENGTH: usize = 1;

/// Number of slots of a machine.
pub const TOTAL_LENGTH: usize = INGREDIENT_LENGTH + RESULT_LENGTH;

/// A machine that turns the items in its ingredient slots into the result
/// of the recipe selected for it.
#[derive(Debug)]
pub struct AssemblingMachine {
    pub storage: [PossibleItem; 4],
    /// The voxels that the machine stands on.
    pub structure_coordinates: Vec<GlobalCoords>,
    /// Id of the recipe that the machine is set to.
    pub selected_recipe: Option<u32>,
    /// The craft that the machine is working on.
    pub active_recipe: Option<ActiveRecipe>,
}

/// What a machine is, in mathematical terms.
pub struct MachineView {
    pub storage: Seq<PossibleItem>,
    pub structure: Seq<GlobalCoords>,
    pub selected: Option<u32>,
    pub active: Option<ActiveRecipe>,
}

impl View for AssemblingMachine {
    type V = MachineView;

    open spec fn view(&self) -> MachineView {
        MachineView {
            storage: self.storage@,
            structure: self.structure_coordinates@,
            selected: self.selected_recipe,
            active: self.active_recipe,
        }
    }
}

/// The slots after `item` was put into those of the slots `from .. to` whose
/// ingredient in `ingredients` is of its kind, one after the other, each
/// taking what the ones before it could not; and what none of them took.
pub open spec fn put_across(
    slots: Seq<PossibleItem>,
    from: int,
    to: int,
    item: Item,
    ingredients: Seq<Item>,
) -> (Seq<PossibleItem>, Option<Item>)
    decreases to - from,
{
    if from >= to {
        (slots, Some(item))
    } else if from < ingredients.len() && ingredients[from].item_id == item.item_id {
        let (slot, rest) = put_in(slots[from].0, item);
        let slots = slots.update(from, PossibleItem(slot));
        match rest {
            None => (slots, None),
            Some(rest) => put_across(slots, from + 1, to, rest, ingredients),
        }
    } else {
        put_across(slots, from + 1, to, item, ingredients)
    }
}

/// How many items of kind `item_id` the ingredient slots hold.
pub open spec fn held_in_ingredients(slots: Seq<PossibleItem>, item_id: u32) -> nat {
    held_of(slots[0].0, item_id) + held_of(slots[1].0, item_id) + held_of(slots[2].0, item_id)
}

/// Number of bytes of the header of an encoded machine.
pub const HEADER_SIZE: usize = 16;

/// Number of bytes of the slot array of an encoded machine.
pub const STORAGE_SIZE: u32 = 36;

/// The recipe id that stands for "no recipe" in an encoded machine.
pub const NO_RECIPE: u32 = 0xffff_ffff;

/// The header field of an optional recipe id.
pub open spec fn recipe_field(id: Option<u32>) -> u32 {
    match id {
        Some(id) => id,
        None => NO_RECIPE,
    }
}

/// The recipe id of an optional craft.
pub open spec fn craft_id(craft: Option<ActiveRecipe>) -> Option<u32> {
    match craft {
        Some(craft) => Some(craft.recipe_id),
        None => None,
    }
}

/// The header of an encoded machine: the id of the selected recipe, the id
/// of the recipe of the craft in progress, the length of the slot array in
/// bytes, the length of the list of positions in bytes.
pub open spec fn machine_header(machine: MachineView) -> Seq<u8> {
    u32_bytes(recipe_field(machine.selected)) + u32_bytes(recipe_field(craft_id(machine.active)))
        + u32_bytes(STORAGE_SIZE) + u32_bytes((12 * machine.structure.len()) as u32)
}

/// The bytes of a machine: the header, the slots, the positions. How far
/// the craft in progress has come is not written.
pub open spec fn machine_bytes(machine: MachineView) -> Seq<u8> {
    machine_header(machine) + slots_bytes(machine.storage) + coords_list_bytes(machine.structure)
}

/// The craft that a machine works on after it was read at `now`: the recipe
/// of the header field, started anew.
pub open spec fn craft_read(field: u32, recipes: &Recipes, now: u64) -> Option<ActiveRecipe> {
    if field == NO_RECIPE {
        None
    } else {
        Some(recipes.all@[field as int].spec_start(now))
    }
}

/// The machine that `bytes` holds, read at `now` with the recipes of
/// `recipes`, or the first fault that stops the reading. Checked are, in this
/// order: that the header is there, that the two recipe ids are "no recipe"
/// or ids of the catalog, that the slot array has its length, that the list
/// of positions is a whole number of positions, that both sections lie
/// inside the buffer, and that every slot has a tag. Bytes after the declared
/// sections are not looked at.
pub open spec fn decode_machine(bytes: Seq<u8>, recipes: &Recipes, now: u64) -> Result<
    MachineView,
    DecodeError,
> {
    if bytes.len() < 16 {
        Err(DecodeError::UnexpectedEnd)
    } else {
        let selected = u32_at(bytes, 0);
        let active = u32_at(bytes, 4);
        let storage_len = u32_at(bytes, 8);
        let structure_len = u32_at(bytes, 12);
        if selected != NO_RECIPE && !recipes.has(selected) {
            Err(DecodeError::UnknownRecipe)
        } else if active != NO_RECIPE && !recipes.has(active) {
            Err(DecodeError::UnknownRecipe)
        } else if storage_len != STORAGE_SIZE {
            Err(DecodeError::BadStorageLength)
        } else if structure_len % 12 != 0 {
            Err(DecodeError::BadStructureLength)
        } else if 16 + storage_len + structure_len > bytes.len() {
            Err(DecodeError::UnexpectedEnd)
        } else if !slots_ok(bytes, 16, 4) {
            Err(DecodeError::BadSlotTag)
        } else {
            Ok(
                MachineView {
                    storage: slots_at(bytes, 16, 4),
                    structure: coords_list_at(bytes, 52, (structure_len / 12) as nat),
                    selected: if selected == NO_RECIPE {
                        None
                    } else {
                        Some(selected)
                    },
                    active: craft_read(active, recipes, now),
                },
            )
        }
    }
}

/// A machine that is written and read again at `now` is the machine that
/// was written, with the same slots, positions and recipes, also where it
/// has no recipe; its craft in progress, if it has one, starts anew at
/// `now`.
pub proof fn lemma_machine_round_trip(machine: MachineView, recipes: &Recipes, now: u64)
    requires
        recipes.wf(),
        machine.storage.len() == 4,
        12 * machine.structure.len() <= u32::MAX,
        machine.selected matches Some(id) ==> recipes.has(id),
        machine.active matches Some(craft) ==> recipes.has(craft.recipe_id),
    ensures
        decode_machine(machine_bytes(machine), recipes, now) == Ok::<MachineView, DecodeError>(
            MachineView {
                active: craft_read(recipe_field(craft_id(machine.active)), recipes, now),
                ..machine
            },
        ),
{
    let bytes = machine_bytes(machine);
    let n = machine.structure.len();
    let structure_len = (12 * n) as u32;
    assert(bytes.subrange(0, 4) =~= u32_bytes(recipe_field(machine.selected)));
    assert(bytes.subrange(4, 8) =~= u32_bytes(recipe_field(craft_id(machine.active))));
    assert(bytes.subrange(8, 12) =~= u32_bytes(STORAGE_SIZE));
    assert(bytes.subrange(12, 16) =~= u32_bytes(structure_len));
    lemma_u32_at_window(bytes, 0, recipe_field(machine.selected));
    lemma_u32_at_window(bytes, 4, recipe_field(craft_id(machine.active)));
    lemma_u32_at_window(bytes, 8, STORAGE_SIZE);
    lemma_u32_at_window(bytes, 12, structure_len);
    assert(slots_bytes(machine.storage).len() == 36);
    assert(bytes.subrange(16, 52) =~= slots_bytes(machine.storage));
    lemma_slots_round_trip(bytes, 16, machine.storage);
    assert(bytes.subrange(52, 52 + 12 * (n as int)) =~= coords_list_bytes(machine.structure));
    lemma_coords_list_round_trip(bytes, 52, machine.structure);
    assert(structure_len / 12 == n);
}

/// Whether the ingredient slots hold every ingredient of a recipe, each
/// counted by itself.
pub open spec fn can_craft(slots: Seq<PossibleItem>, ingredients: Seq<Item>) -> bool {
    forall|i: int|
        0 <= i < ingredients.len() ==> held_in_ingredients(slots, ingredients[i].item_id)
            >= (#[trigger] ingredients[i]).count
}

/// The slots after the first `k` ingredients were taken out of the
/// ingredient slots, one ingredient after the other.
pub open spec fn consumed(slots: Seq<PossibleItem>, ingredients: Seq<Item>, k: int) -> Seq<
    PossibleItem,
>
    decreases k,
{
    if k <= 0 {
        slots
    } else {
        take_across(consumed(slots, ingredients, k - 1), 0, 3, ingredients[k - 1]).0
    }
}

/// The machine after the first half of a tick at `now`: a machine that is
/// idle, has a recipe and holds its ingredients uses them up and starts a
/// craft.
pub open spec fn craft_started(machine: MachineView, recipes: &Recipes, now: u64) -> MachineView {
    match (machine.active, machine.selected) {
        (None, Some(id)) => {
            let recipe = recipes.all@[id as int];
            if can_craft(machine.storage, recipe.ingredients@) {
                MachineView {
                    storage: consumed(
                        machine.storage,
                        recipe.ingredients@,
                        recipe.ingredients@.len() as int,
                    ),
                    active: Some(recipe.spec_start(now)),
                    ..machine
                }
            } else {
                machine
            }
        },
        _ => machine,
    }
}

/// The machine after the second half of a tick at `now`: a craft that is
/// done, and whose result fits the result slot whole, puts it there and
/// ends.
pub open spec fn craft_delivered(machine: MachineView, recipes: &Recipes, now: u64) -> MachineView {
    match machine.active {
        Some(craft) => {
            let result = recipes.all@[craft.recipe_id as int].result;
            let (slot, rest) = put_in(machine.storage[3].0, result);
            if now >= craft.finish_at && rest is None {
                MachineView {
                    storage: machine.storage.update(3, PossibleItem(slot)),
                    active: None,
                    ..machine
                }
            } else {
                machine
            }
        },
        None => machine,
    }
}

/// A copy of a list of items.
pub fn copy_items(items: &Vec<Item>) -> (copy: Vec<Item>)
    ensures
        copy@ == items@,
{
    let mut copy: Vec<Item> = Vec::new();
    let mut i: usize = 0;
    while i < items.len()
        invariant
            0 <= i <= items@.len(),
            copy@ == items@.subrange(0, i as int),
        decreases items@.len() - i,
    {
        copy.push(items[i]);
        assert(copy@ =~= items@.subrange(0, i + 1));
        i += 1;
    }
    assert(items@.subrange(0, items@.len() as int) =~= items@);
    copy
}

impl AssemblingMachine {
    /// The recipes that the machine names are recipes of the catalog.
    pub open spec fn wf(&self, recipes: &Recipes) -> bool {
        &&& recipes.wf()
        &&& self.selected_recipe matches Some(id) ==> recipes.has(id)
        &&& self.active_recipe matches Some(craft) ==> recipes.has(craft.recipe_id)
    }

    /// Whether the recipes that the machine names are recipes of the
    /// catalog, and the catalog is well formed.
    pub fn is_well_formed(&self, recipes: &Recipes) -> (ok: bool)
        ensures
            ok == self.wf(recipes),
    {
        if !recipes.is_well_formed() {
            return false;
        }
        let selected_known = match self.selected_recipe {
            Some(id) => recipes.get(id).is_some(),
            None => true,
        };
        let active_known = match self.active_recipe {
            Some(craft) => recipes.get(craft.recipe_id).is_some(),
            None => true,
        };
        selected_known && active_known
    }

    /// An empty machine on the voxels `structure_coordinates`, with no
    /// recipe.
    pub fn new(structure_coordinates: Vec<GlobalCoords>) -> (machine: Self)
        ensures
            machine.structure_coordinates == structure_coordinates,
            machine.selected_recipe is None,
            machine.active_recipe is None,
            forall|i: int| 0 <= i < 4 ==> machine.storage@[i].0 is None,
    {
        Self {
            storage: [PossibleItem::new_none(); 4],
            structure_coordinates,
            selected_recipe: None,
            active_recipe: None,
        }
    }

    /// The slots: three for ingredients, then one for the result.
    pub fn storage(&self) -> (slots: &[PossibleItem])
        ensures
            slots@ == self.storage@,
    {
        &self.storage
    }

    /// The slots, to change them.
    pub fn mut_storage(&mut self) -> (slots: &mut [PossibleItem])
        ensures
            slots@ == old(self).storage@,
            final(self).storage@ == final(slots)@,
            final(self).structure_coordinates == old(self).structure_coordinates,
            final(self).selected_recipe == old(self).selected_recipe,
            final(self).active_recipe == old(self).active_recipe,
    {
        &mut self.storage
    }

    /// Whether the ingredient slots together hold at least `item.count`
    /// items of the kind of `item`.
    pub fn is_item_exist(&self, item: &Item) -> (exists: bool)
        ensures
            exists == (held_in_ingredients(self.storage@, item.item_id) >= item.count),
    {
        let held: u64 = self.storage[0].contains(item.item_id) as u64 + self.storage[1].contains(
            item.item_id,
        ) as u64 + self.storage[2].contains(item.item_id) as u64;
        held >= item.count as u64
    }

    /// Takes `item` out of the ingredient slots, in slot order. Returns what
    /// the slots could not give; nothing if they gave all.
    pub fn remove(&mut self, item: &Item) -> (remainder: Option<Item>)
        ensures
            (final(self).storage@, remainder) == take_across(old(self).storage@, 0, 3, *item),
            final(self).structure_coordinates == old(self).structure_coordinates,
            final(self).selected_recipe == old(self).selected_recipe,
            final(self).active_recipe == old(self).active_recipe,
    {
        let mut sub_item = Item::from(item);
        let mut i: usize = 0;
        while i < INGREDIENT_LENGTH
            invariant
                0 <= i <= 3,
                take_across(old(self).storage@, 0, 3, *item) == take_across(
                    self.storage@,
                    i as int,
                    3,
                    sub_item,
                ),
                self.structure_coordinates == old(self).structure_coordinates,
                self.selected_recipe == old(self).selected_recipe,
                self.active_recipe == old(self).active_recipe,
            decreases 3 - i,
        {
            let remainder = self.storage[i].try_sub_item(&sub_item);
            match remainder {
                None => {
                    return None;
                },
                Some(rest) => {
                    sub_item = rest;
                },
            }
            i += 1;
        }
        Some(sub_item)
    }

    /// Puts `item` into the ingredient slots that the selected recipe gives
    /// to its kind, in slot order. Returns what the slots did not take;
    /// nothing if they took all. A machine without a recipe takes nothing.
    pub fn add(&mut self, item: &Item, _allow_partial: bool, recipes: &Recipes) -> (remainder:
        Option<Item>)
        requires
            old(self).wf(recipes),
        ensures
            final(self).wf(recipes),
            (final(self).storage@, remainder) == (match old(self).selected_recipe {
                Some(id) => put_across(
                    old(self).storage@,
                    0,
                    3,
                    *item,
                    recipes.all@[id as int].ingredients@,
                ),
                None => (old(self).storage@, Some(*item)),
            }),
            final(self).structure_coordinates == old(self).structure_coordinates,
            final(self).selected_recipe == old(self).selected_recipe,
            final(self).active_recipe == old(self).active_recipe,
    {
        let mut added_item = Item::from(item);
        let recipe = match self.selected_recipe(recipes) {
            Some(recipe) => recipe,
            None => {
                return Some(added_item);
            },
        };
        let mut index: usize = 0;
        while index < INGREDIENT_LENGTH
            invariant
                0 <= index <= 3,
                added_item.item_id == item.item_id,
                old(self).wf(recipes),
                old(self).selected_recipe matches Some(id) && *recipe == recipes.all@[id as int],
                put_across(old(self).storage@, 0, 3, *item, recipe.ingredients@) == put_across(
                    self.storage@,
                    index as int,
                    3,
                    added_item,
                    recipe.ingredients@,
                ),
                self.structure_coordinates == old(self).structure_coordinates,
                self.selected_recipe == old(self).selected_recipe,
                self.active_recipe == old(self).active_recipe,
            decreases 3 - index,
        {
            if index < recipe.ingredients.len() && recipe.ingredients[index].id() == item.id() {
                let remainder = self.storage[index].try_add_item(&added_item);
                match remainder {
                    None => {
                        return None;
                    },
                    Some(rest) => {
                        added_item = rest;
                    },
                }
            }
            index += 1;
        }
        Some(added_item)
    }

    /// Draws up to `max_count` items from the result slot. Returns them with
    /// the index of the slot; nothing if the slot gave none.
    pub fn take_first_existing(&mut self, max_count: u32) -> (taken: Option<(Item, usize)>)
        ensures
            final(self).storage@ == old(self).storage@.update(
                3,
                PossibleItem(drawn(old(self).storage@[3].0, max_count).0),
            ),
            taken == (match drawn(old(self).storage@[3].0, max_count).1 {
                Some(item) => Some((item, 3usize)),
                None => None,
            }),
            final(self).structure_coordinates == old(self).structure_coordinates,
            final(self).selected_recipe == old(self).selected_recipe,
            final(self).active_recipe == old(self).active_recipe,
    {
        let mut i: usize = INGREDIENT_LENGTH;
        while i < TOTAL_LENGTH
            invariant
                3 <= i <= 4,
                i == 3 ==> self.storage@ == old(self).storage@,
                i == 4 ==> self.storage@ == old(self).storage@.update(
                    3,
                    PossibleItem(drawn(old(self).storage@[3].0, max_count).0),
                ) && drawn(old(self).storage@[3].0, max_count).1 is None,
                self.structure_coordinates == old(self).structure_coordinates,
                self.selected_recipe == old(self).selected_recipe,
                self.active_recipe == old(self).active_recipe,
            decreases 4 - i,
        {
            if let Some(item) = self.storage[i].try_take(max_count) {
                return Some((item, i));
            }
            i += 1;
        }
        None
    }

    /// The voxels that the machine stands on.
    pub fn structure_coordinates(&self) -> (coordinates: &[GlobalCoords])
        ensures
            coordinates@ == self.structure_coordinates@,
    {
        self.structure_coordinates.as_slice()
    }

    /// The voxels that the machine stands on, to change them; their number
    /// stays.
    pub fn mut_structure_coordinates(&mut self) -> (coordinates: &mut [GlobalCoords])
        ensures
            coordinates@ == old(self).structure_coordinates@,
            final(self).structure_coordinates@ == final(coordinates)@,
            final(self).storage == old(self).storage,
            final(self).selected_recipe == old(self).selected_recipe,
            final(self).active_recipe == old(self).active_recipe,
    {
        self.structure_coordinates.as_mut_slice()
    }

    /// The recipe that the machine is set to.
    pub fn selected_recipe<'a>(&self, recipes: &'a Recipes) -> (recipe: Option<&'a Recipe>)
        requires
            self.wf(recipes),
        ensures
            recipe == (match self.selected_recipe {
                Some(id) => Some(&recipes.all@[id as int]),
                None => None,
            }),
    {
        match self.selected_recipe {
            Some(id) => recipes.get(id),
            None => None,
        }
    }

    /// Sets the machine to recipe `index` of the catalog. The slots are
    /// emptied and a craft in progress is given up; returned are what the
    /// slots held and the ingredients that the craft had used.
    pub fn select_recipe(&mut self, index: usize, recipes: &Recipes) -> (evicted: (
        [PossibleItem; 4],
        Vec<Item>,
    ))
        requires
            old(self).wf(recipes),
            index < recipes.all@.len(),
        ensures
            final(self).wf(recipes),
            final(self).selected_recipe == Some(index as u32),
            final(self).active_recipe is None,
            forall|i: int| 0 <= i < 4 ==> final(self).storage@[i].0 is None,
            final(self).structure_coordinates == old(self).structure_coordinates,
            evicted.0@ == old(self).storage@,
            evicted.1@ == (match old(self).active_recipe {
                Some(craft) => recipes.all@[craft.recipe_id as int].ingredients@,
                None => Seq::<Item>::empty(),
            }),
    {
        self.selected_recipe = Some(index as u32);
        let mut result = [PossibleItem::new_none(); 4];
        std::mem::swap(&mut result, &mut self.storage);
        let ingredients = match self.active_recipe.take() {
            Some(craft) => match recipes.get(craft.recipe_id) {
                Some(recipe) => copy_items(&recipe.ingredients),
                None => Vec::new(),
            },
            None => Vec::new(),
        };
        (result, ingredients)
    }

    /// Starts a craft of `recipe` at `now` if the ingredient slots hold every
    /// ingredient, and takes the ingredients out. The craft is returned, not
    /// kept.
    pub fn start_recipe(&mut self, recipe: &Recipe, now: u64) -> (craft: Option<ActiveRecipe>)
        ensures
            can_craft(old(self).storage@, recipe.ingredients@) ==> craft == Some(
                recipe.spec_start(now),
            ) && final(self).storage@ == consumed(
                old(self).storage@,
                recipe.ingredients@,
                recipe.ingredients@.len() as int,
            ),
            !can_craft(old(self).storage@, recipe.ingredients@) ==> craft is None
                && final(self).storage@ == old(self).storage@,
            final(self).structure_coordinates == old(self).structure_coordinates,
            final(self).selected_recipe == old(self).selected_recipe,
            final(self).active_recipe == old(self).active_recipe,
    {
        let mut i: usize = 0;
        while i < recipe.ingredients.len()
            invariant
                0 <= i <= recipe.ingredients@.len(),
                *self == *old(self),
                forall|k: int|
                    0 <= k < i ==> held_in_ingredients(
                        self.storage@,
                        recipe.ingredients@[k].item_id,
                    ) >= (#[trigger] recipe.ingredients@[k]).count,
            decreases recipe.ingredients@.len() - i,
        {
            if !self.is_item_exist(&recipe.ingredients[i]) {
                return None;
            }
            i += 1;
        }
        let mut k: usize = 0;
        while k < recipe.ingredients.len()
            invariant
                0 <= k <= recipe.ingredients@.len(),
                self.storage@ == consumed(old(self).storage@, recipe.ingredients@, k as int),
                self.structure_coordinates == old(self).structure_coordinates,
                self.selected_recipe == old(self).selected_recipe,
                self.active_recipe == old(self).active_recipe,
            decreases recipe.ingredients@.len() - k,
        {
            let _ = self.remove(&recipe.ingredients[k]);
            k += 1;
        }
        Some(recipe.start(now))
    }

    /// One tick of the machine at `now`, a time in milliseconds: an idle
    /// machine starts a craft of its recipe if it holds the ingredients, and
    /// a craft that is done puts its result into the result slot, if that
    /// has room for all of it.
    pub fn update(&mut self, recipes: &Recipes, now: u64)
        requires
            old(self).wf(recipes),
        ensures
            final(self).wf(recipes),
            final(self)@ == craft_delivered(craft_started(old(self)@, recipes, now), recipes, now),
            final(self).structure_coordinates == old(self).structure_coordinates,
    {
        if self.active_recipe.is_none() {
            if let Some(recipe) = self.selected_recipe(recipes) {
                self.active_recipe = self.start_recipe(recipe, now);
            }
        }
        let active_recipe = match self.active_recipe {
            Some(craft) => craft,
            None => {
                return ;
            },
        };
        let recipe = match recipes.get(active_recipe.recipe_id) {
            Some(recipe) => recipe,
            None => {
                return ;
            },
        };
        if !active_recipe.is_finished(now) || !self.storage[3].is_possible_add(&recipe.result) {
            return ;
        }
        let add_item = recipe.result;
        let _ = self.storage[3].try_add_item(&add_item);
        self.active_recipe = None;
    }

    /// The bytes of the machine: the header, the slots, the positions.
    ///
    /// The length of the list of positions has to fit its header field.
    pub fn encode_bytes(&self) -> (bytes: Vec<u8>)
        requires
            12 * self.structure_coordinates@.len() <= u32::MAX,
        ensures
            bytes@ == machine_bytes(self@),
    {
        let mut bytes: Vec<u8> = Vec::new();
        let selected: u32 = match self.selected_recipe {
            Some(id) => id,
            None => NO_RECIPE,
        };
        let active: u32 = match self.active_recipe {
            Some(craft) => craft.recipe_id,
            None => NO_RECIPE,
        };
        let structure_len: u32 = (12 * self.structure_coordinates.len()) as u32;
        push_u32(&mut bytes, selected);
        push_u32(&mut bytes, active);
        push_u32(&mut bytes, STORAGE_SIZE);
        push_u32(&mut bytes, structure_len);
        assert(bytes@ =~= machine_header(self@));
        push_slots(&mut bytes, &self.storage);
        push_coords_list(&mut bytes, self.structure_coordinates.as_slice());
        bytes
    }

    /// Reads a machine from `bytes` at `now`, a time in milliseconds, with
    /// the recipes of `recipes`. A craft in progress starts anew.
    #[verifier::loop_isolation(false)]
    pub fn decode_bytes(bytes: &[u8], recipes: &Recipes, now: u64) -> (machine: Result<
        Self,
        DecodeError,
    >)
        requires
            recipes.wf(),
        ensures
            match machine {
                Ok(machine) => machine.wf(recipes) && decode_machine(bytes@, recipes, now) == Ok::<
                    MachineView,
                    DecodeError,
                >(machine@),
                Err(fault) => decode_machine(bytes@, recipes, now) == Err::<
                    MachineView,
                    DecodeError,
                >(fault),
            },
    {
        if bytes.len() < HEADER_SIZE {
            return Err(DecodeError::UnexpectedEnd);
        }
        let selected_id = read_u32(bytes, 0);
        let active_id = read_u32(bytes, 4);
        let storage_len = read_u32(bytes, 8);
        let structure_len = read_u32(bytes, 12);
        let selected_recipe = if selected_id != NO_RECIPE {
            if recipes.get(selected_id).is_none() {
                return Err(DecodeError::UnknownRecipe);
            }
            Some(selected_id)
        } else {
            None
        };
        let active_recipe = if active_id != NO_RECIPE {
            match recipes.get(active_id) {
                Some(recipe) => Some(recipe.start(now)),
                None => {
                    return Err(DecodeError::UnknownRecipe);
                },
            }
        } else {
            None
        };
        if storage_len != STORAGE_SIZE {
            return Err(DecodeError::BadStorageLength);
        }
        if structure_len % 12 != 0 {
            return Err(DecodeError::BadStructureLength);
        }
        if 16 + storage_len as u64 + structure_len as u64 > bytes.len() as u64 {
            return Err(DecodeError::UnexpectedEnd);
        }
        let mut storage = [PossibleItem::new_none(); 4];
        let mut i: usize = 0;
        while i < TOTAL_LENGTH
            invariant
                0 <= i <= 4,
                52 <= bytes.len(),
                forall|k: int| 0 <= k < i ==> #[trigger] slot_tag_ok(bytes@, 16 + 9 * k),
                forall|k: int| 0 <= k < i ==> storage@[k] == slot_at(bytes@, 16 + 9 * k),
            decreases 4 - i,
        {
            match read_slot(bytes, HEADER_SIZE + 9 * i) {
                Ok(slot) => {
                    storage[i] = slot;
                },
                Err(fault) => {
                    assert(!slot_tag_ok(bytes@, 16 + 9 * i));
                    return Err(fault);
                },
            }
            i += 1;
        }
        assert(storage@ =~= slots_at(bytes@, 16, 4));
        let structure = read_coords_list(bytes, 52, (structure_len / 12) as usize);
        Ok(
            Self {
                storage,
                structure_coordinates: structure,
                selected_recipe,
                active_recipe,
            },
        )
    }
}

} // verus!
