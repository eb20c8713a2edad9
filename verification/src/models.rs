//! The models on offer.

use vstd::prelude::*;

verus! {

/// What a model on offer is.
pub struct ModelV {
    pub id: Seq<char>,
    pub object: Seq<char>,
    pub created: int,
    pub owned_by: Seq<char>,
    pub display_name: Seq<char>,
    pub model_type: Seq<char>,
    pub max_tokens: int,
}

/// A model on offer.
#[derive(Debug)]
pub struct Model {
    pub id: String,
    pub object: String,
    pub created: i64,
    pub owned_by: String,
    pub display_name: String,
    pub model_type: String,
    pub max_tokens: i32,
}

impl Model {
    pub open spec fn view(&self) -> ModelV {
        ModelV {
            id: self.id@,
            object: self.object@,
            created: self.created as int,
            owned_by: self.owned_by@,
            display_name: self.display_name@,
            model_type: self.model_type@,
            max_tokens: self.max_tokens as int,
        }
    }
}

/// The models of a list.
pub open spec fn model_views(models: Seq<Model>) -> Seq<ModelV> {
    models.map_values(|m: Model| m.view())
}

/// A chat model.
pub open spec fn chat_model(id: Seq<char>, created: int, display_name: Seq<char>) -> ModelV {
    ModelV {
        id,
        object: "model"@,
        created,
        owned_by: "anthropic"@,
        display_name,
        model_type: "chat"@,
        max_tokens: 64000,
    }
}

/// A chat model, and the same model with thinking.
pub open spec fn model_pair(id: Seq<char>, created: int, display_name: Seq<char>) -> Seq<ModelV> {
    seq![
        chat_model(id, created, display_name),
        chat_model(id + "-thinking"@, created, display_name + " (Thinking)"@),
    ]
}

/// A model of a family, and the same model with thinking. The family has an id, which starts the
/// ids of its models, and a brand, which starts their names.
pub open spec fn family_pair(
    family: Seq<char>,
    brand: Seq<char>,
    id: Seq<char>,
    created: int,
    name: Seq<char>,
) -> Seq<ModelV> {
    model_pair(family + id, created, brand + name)
}

/// All models of a family that are on offer, the newest first.
pub open spec fn catalogue(family: Seq<char>, brand: Seq<char>) -> Seq<ModelV> {
    family_pair(family, brand, "-opus-4-8"@, 1779897600, " Opus 4.8"@)
        + family_pair(family, brand, "-sonnet-4-8"@, 1779897600, " Sonnet 4.8"@)
        + family_pair(family, brand, "-opus-4-7"@, 1776276000, " Opus 4.7"@)
        + family_pair(family, brand, "-opus-4-6"@, 1770163200, " Opus 4.6"@)
        + family_pair(family, brand, "-sonnet-4-6"@, 1771286400, " Sonnet 4.6"@)
        + family_pair(family, brand, "-opus-4-5-20251101"@, 1763942400, " Opus 4.5"@)
        + family_pair(family, brand, "-sonnet-4-5-20250929"@, 1759104000, " Sonnet 4.5"@)
        + family_pair(family, brand, "-haiku-4-5-20251001"@, 1760486400, " Haiku 4.5"@)
}

/// Adds a model of a family, and the same model with thinking.
fn add_pair(
    models: &mut Vec<Model>,
    family: &str,
    brand: &str,
    id: &str,
    created: i64,
    name: &str,
)
    ensures
        model_views(final(models)@) == model_views(old(models)@) + family_pair(
            family@,
            brand@,
            id@,
            created as int,
            name@,
        ),
{
    let mut full_id = family.to_owned();
    full_id.append(id);
    let mut display_name = brand.to_owned();
    display_name.append(name);
    let mut thinking_id = full_id.as_str().to_owned();
    thinking_id.append("-thinking");
    let mut thinking_name = display_name.as_str().to_owned();
    thinking_name.append(" (Thinking)");
    models.push(
        Model {
            id: full_id,
            object: "model".to_owned(),
            created,
            owned_by: "anthropic".to_owned(),
            display_name,
            model_type: "chat".to_owned(),
            max_tokens: 64000,
        },
    );
    models.push(
        Model {
            id: thinking_id,
            object: "model".to_owned(),
            created,
            owned_by: "anthropic".to_owned(),
            display_name: thinking_name,
            model_type: "chat".to_owned(),
            max_tokens: 64000,
        },
    );
    assert(model_views(models@) =~= model_views(old(models)@) + family_pair(
        family@,
        brand@,
        id@,
        created as int,
        name@,
    ));
}

/// All models of a family that are on offer.
pub fn available_models(family: &str, brand: &str) -> (r: Vec<Model>)
    ensures
        model_views(r@) == catalogue(family@, brand@),
{
    let mut models: Vec<Model> = Vec::new();
    assert(model_views(models@) =~= Seq::empty());
    add_pair(&mut models, family, brand, "-opus-4-8", 1779897600, " Opus 4.8");
    assert(model_views(models@) =~= family_pair(
        family@,
        brand@,
        "-opus-4-8"@,
        1779897600,
        " Opus 4.8"@,
    ));
    add_pair(&mut models, family, brand, "-sonnet-4-8", 1779897600, " Sonnet 4.8");
    add_pair(&mut models, family, brand, "-opus-4-7", 1776276000, " Opus 4.7");
    add_pair(&mut models, family, brand, "-opus-4-6", 1770163200, " Opus 4.6");
    add_pair(&mut models, family, brand, "-sonnet-4-6", 1771286400, " Sonnet 4.6");
    add_pair(&mut models, family, brand, "-opus-4-5-20251101", 1763942400, " Opus 4.5");
    add_pair(&mut models, family, brand, "-sonnet-4-5-20250929", 1759104000, " Sonnet 4.5");
    add_pair(&mut models, family, brand, "-haiku-4-5-20251001", 1760486400, " Haiku 4.5");
    models
}

/// Every model on offer is on offer with thinking as well.
pub proof fn law_each_model_can_think(family: Seq<char>, brand: Seq<char>, i: int)
    requires
        0 <= i < 8,
    ensures
        catalogue(family, brand).len() == 16,
        catalogue(family, brand)[2 * i + 1] == (ModelV {
            id: catalogue(family, brand)[2 * i].id + "-thinking"@,
            display_name: catalogue(family, brand)[2 * i].display_name + " (Thinking)"@,
            ..catalogue(family, brand)[2 * i]
        }),
{
    let c = catalogue(family, brand);
    assert(c.len() == 16);
    assert(c[1].id == c[0].id + "-thinking"@);
    assert(c[3].id == c[2].id + "-thinking"@);
    assert(c[5].id == c[4].id + "-thinking"@);
    assert(c[7].id == c[6].id + "-thinking"@);
    assert(c[9].id == c[8].id + "-thinking"@);
    assert(c[11].id == c[10].id + "-thinking"@);
    assert(c[13].id == c[12].id + "-thinking"@);
    assert(c[15].id == c[14].id + "-thinking"@);
}

/// Every model on offer is a chat model of its family: the family starts its id, and the brand its
/// name. It answers with up to 64000 tokens.
pub proof fn law_each_model_is_described(family: &str, brand: &str, r: Vec<Model>, i: int)
    requires
        call_ensures(available_models, (family, brand), r),
        0 <= i < r@.len(),
    ensures
        r@[i].object@ == "model"@,
        r@[i].owned_by@ == "anthropic"@,
        r@[i].model_type@ == "chat"@,
        r@[i].max_tokens == 64000,
        r@[i].id@.len() > family@.len() && r@[i].id@.take(family@.len() as int) == family@,
        r@[i].display_name@.len() > brand@.len() && r@[i].display_name@.take(brand@.len() as int)
            == brand@,
{
    let c = catalogue(family@, brand@);
    assert(model_views(r@)[i] == r@[i].view());
    assert(c[i] == r@[i].view());
    lemma_entries(family@, brand@);
    assert(described(c[i], family@, brand@));
}

/// A chat model of a family.
spec fn described(m: ModelV, family: Seq<char>, brand: Seq<char>) -> bool {
    &&& m.object == "model"@
    &&& m.owned_by == "anthropic"@
    &&& m.model_type == "chat"@
    &&& m.max_tokens == 64000
    &&& m.id.len() > family.len() && m.id.take(family.len() as int) == family
    &&& m.display_name.len() > brand.len() && m.display_name.take(brand.len() as int) == brand
}

proof fn lemma_pair(
    family: Seq<char>,
    brand: Seq<char>,
    id: Seq<char>,
    created: int,
    name: Seq<char>,
)
    requires
        id.len() > 0,
        name.len() > 0,
    ensures
        family_pair(family, brand, id, created, name).len() == 2,
        described(family_pair(family, brand, id, created, name)[0], family, brand),
        described(family_pair(family, brand, id, created, name)[1], family, brand),
{
    assert((family + id).take(family.len() as int) =~= family);
    assert((brand + name).take(brand.len() as int) =~= brand);
    assert((family + id + "-thinking"@).take(family.len() as int) =~= family);
    assert((brand + name + " (Thinking)"@).take(brand.len() as int) =~= brand);
}

proof fn lemma_entries(family: Seq<char>, brand: Seq<char>)
    ensures
        catalogue(family, brand).len() == 16,
        forall|i: int| 0 <= i < 16 ==> described(#[trigger] catalogue(family, brand)[i], family, brand),
{
    reveal_strlit("-opus-4-8");
    reveal_strlit(" Opus 4.8");
    reveal_strlit("-sonnet-4-8");
    reveal_strlit(" Sonnet 4.8");
    reveal_strlit("-opus-4-7");
    reveal_strlit(" Opus 4.7");
    reveal_strlit("-opus-4-6");
    reveal_strlit(" Opus 4.6");
    reveal_strlit("-sonnet-4-6");
    reveal_strlit(" Sonnet 4.6");
    reveal_strlit("-opus-4-5-20251101");
    reveal_strlit(" Opus 4.5");
    reveal_strlit("-sonnet-4-5-20250929");
    reveal_strlit(" Sonnet 4.5");
    reveal_strlit("-haiku-4-5-20251001");
    reveal_strlit(" Haiku 4.5");
    lemma_pair(family, brand, "-opus-4-8"@, 1779897600, " Opus 4.8"@);
    lemma_pair(family, brand, "-sonnet-4-8"@, 1779897600, " Sonnet 4.8"@);
    lemma_pair(family, brand, "-opus-4-7"@, 1776276000, " Opus 4.7"@);
    lemma_pair(family, brand, "-opus-4-6"@, 1770163200, " Opus 4.6"@);
    lemma_pair(family, brand, "-sonnet-4-6"@, 1771286400, " Sonnet 4.6"@);
    lemma_pair(family, brand, "-opus-4-5-20251101"@, 1763942400, " Opus 4.5"@);
    lemma_pair(family, brand, "-sonnet-4-5-20250929"@, 1759104000, " Sonnet 4.5"@);
    lemma_pair(family, brand, "-haiku-4-5-20251001"@, 1760486400, " Haiku 4.5"@);
}

/// A model with the given id is on offer, under the given name and from the given time on.
pub open spec fn offers(
    models: Seq<Model>,
    id: Seq<char>,
    display_name: Seq<char>,
    created: int,
) -> bool {
    exists|i: int|
        0 <= i < models.len() && (#[trigger] models[i]).id@ == id && models[i].display_name@
            == display_name && models[i].created == created
}

proof fn lemma_offers(models: Seq<Model>, i: int)
    requires
        0 <= i < models.len(),
    ensures
        offers(
            models,
            model_views(models)[i].id,
            model_views(models)[i].display_name,
            model_views(models)[i].created,
        ),
{
    assert(model_views(models)[i] == models[i].view());
    assert(models[i].id@ == model_views(models)[i].id);
}

/// The models on offer are Opus from 4.5 to 4.8, Sonnet 4.5, 4.6 and 4.8, and Haiku 4.5, each of
/// them plain and with thinking, and no others.
pub proof fn law_offered_models(family: &str, brand: &str, r: Vec<Model>)
    requires
        call_ensures(available_models, (family, brand), r),
    ensures
        r@.len() == 16,
        offers(r@, family@ + "-opus-4-8"@, brand@ + " Opus 4.8"@, 1779897600),
        offers(r@, family@ + "-sonnet-4-8"@, brand@ + " Sonnet 4.8"@, 1779897600),
        offers(r@, family@ + "-opus-4-7"@, brand@ + " Opus 4.7"@, 1776276000),
        offers(r@, family@ + "-opus-4-6"@, brand@ + " Opus 4.6"@, 1770163200),
        offers(r@, family@ + "-sonnet-4-6"@, brand@ + " Sonnet 4.6"@, 1771286400),
        offers(r@, family@ + "-opus-4-5-20251101"@, brand@ + " Opus 4.5"@, 1763942400),
        offers(r@, family@ + "-sonnet-4-5-20250929"@, brand@ + " Sonnet 4.5"@, 1759104000),
        offers(r@, family@ + "-haiku-4-5-20251001"@, brand@ + " Haiku 4.5"@, 1760486400),
        forall|i: int|
            0 <= i < 8 ==> (#[trigger] r@[2 * i + 1]).id@ == r@[2 * i].id@ + "-thinking"@ && r@[2 * i
                + 1].display_name@ == r@[2 * i].display_name@ + " (Thinking)"@ && r@[2 * i
                + 1].created == r@[2 * i].created,
{
    let c = catalogue(family@, brand@);
    assert(model_views(r@) == c);
    assert(c.len() == 16);
    lemma_offers(r@, 0);
    lemma_offers(r@, 2);
    lemma_offers(r@, 4);
    lemma_offers(r@, 6);
    lemma_offers(r@, 8);
    lemma_offers(r@, 10);
    lemma_offers(r@, 12);
    lemma_offers(r@, 14);
    assert forall|i: int| 0 <= i < 8 implies (#[trigger] r@[2 * i + 1]).id@ == r@[2 * i].id@
        + "-thinking"@ && r@[2 * i + 1].display_name@ == r@[2 * i].display_name@ + " (Thinking)"@
        && r@[2 * i + 1].created == r@[2 * i].created by {
        law_each_model_can_think(family@, brand@, i);
        assert(model_views(r@)[2 * i] == r@[2 * i].view());
        assert(model_views(r@)[2 * i + 1] == r@[2 * i + 1].view());
    }
}

} // verus!
