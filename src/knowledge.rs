//! The knowledge base: animals and the characteristics asserted of them.
use vstd::prelude::*;

verus! {

/// What an animal is, seen mathematically: its name and the characteristics
/// asserted of it, in the order they were taught. A characteristic that is
/// absent is unknown or false, never a confirmed negative.
pub ghost struct Entity {
    pub name: Seq<char>,
    pub characteristics: Seq<Seq<char>>,
}

/// An animal of the knowledge base.
#[derive(Debug, Clone)]
pub struct Animal {
    pub name: String,
    pub characteristics: Vec<String>,
}

/// The view of a list of characteristic labels.
pub open spec fn labels(v: Seq<String>) -> Seq<Seq<char>> {
    v.map_values(|s: String| s@)
}

impl View for Animal {
    type V = Entity;

    open spec fn view(&self) -> Entity {
        Entity { name: self.name@, characteristics: labels(self.characteristics@) }
    }
}

/// The view of a knowledge base.
pub open spec fn entities(v: Seq<Animal>) -> Seq<Entity> {
    v.map_values(|a: Animal| a@)
}

impl Entity {
    /// An entity is well formed when it has a name.
    pub open spec fn wf(self) -> bool {
        self.name.len() > 0
    }

    /// Whether the characteristic is asserted of this entity.
    pub open spec fn has(self, c: Seq<char>) -> bool {
        self.characteristics.contains(c)
    }
}

/// Every animal of the knowledge base has a name.
pub open spec fn kb_wf(kb: Seq<Entity>) -> bool {
    forall|i: int| 0 <= i < kb.len() ==> #[trigger] kb[i].wf()
}

/// An entity written with string literals.
pub open spec fn entity(name: &str, characteristics: Seq<&str>) -> Entity {
    Entity { name: name@, characteristics: characteristics.map_values(|c: &str| c@) }
}

/// The animals the game starts out knowing.
pub open spec fn initial_knowledge() -> Seq<Entity> {
    seq![
        entity("Gato", seq!["Es una mascota", "Ronronea"]),
        entity("Perro", seq!["Es una mascota", "Ladra"]),
        entity("León", seq!["Es un animal salvaje", "Ruge", "Tiene melenena"]),
        entity("Tigre", seq!["Es un animal salvaje", "Ruge", "Tiene manchas"]),
        entity("Oso", seq!["Es un animal salvaje", "Ruge", "Es muy peludo"]),
        entity("Oveja", seq!["Tiene lana"]),
        entity("Tortuga", seq!["Tiene caparazon", "Pone huevos", "Es lento"]),
        entity("Caballo", seq!["Es muy veloz", "Relincha", "Es muy fuerte"]),
    ]
}

fn label(s: &str) -> (r: String)
    ensures
        r@ == s@,
{
    s.to_string()
}

fn animal(name: &str, characteristics: Vec<&str>) -> (r: Animal)
    ensures
        r@ == entity(name, characteristics@),
{
    let mut list: Vec<String> = Vec::new();
    let mut i: usize = 0;
    while i < characteristics.len()
        invariant
            i <= characteristics.len(),
            list@.len() == i,
            forall|j: int| 0 <= j < i ==> list@[j]@ == characteristics@[j]@,
        decreases characteristics.len() - i,
    {
        list.push(label(characteristics[i]));
        i = i + 1;
    }
    proof {
        assert(labels(list@) =~= characteristics@.map_values(|c: &str| c@));
    }
    Animal { name: label(name), characteristics: list }
}

/// The knowledge base the game starts with: a sparse matrix in which each
/// animal lists only the characteristics asserted of it.
pub fn get_animals() -> (r: Vec<Animal>)
    ensures
        entities(r@) == initial_knowledge(),
        kb_wf(entities(r@)),
{
    let mut r: Vec<Animal> = Vec::new();
    let list = vec!["Es una mascota", "Ronronea"];
    proof {
        assert(list@ =~= seq!["Es una mascota", "Ronronea"]);
    }
    r.push(animal("Gato", list));
    let list = vec!["Es una mascota", "Ladra"];
    proof {
        assert(list@ =~= seq!["Es una mascota", "Ladra"]);
    }
    r.push(animal("Perro", list));
    let list = vec!["Es un animal salvaje", "Ruge", "Tiene melenena"];
    proof {
        assert(list@ =~= seq!["Es un animal salvaje", "Ruge", "Tiene melenena"]);
    }
    r.push(animal("León", list));
    let list = vec!["Es un animal salvaje", "Ruge", "Tiene manchas"];
    proof {
        assert(list@ =~= seq!["Es un animal salvaje", "Ruge", "Tiene manchas"]);
    }
    r.push(animal("Tigre", list));
    let list = vec!["Es un animal salvaje", "Ruge", "Es muy peludo"];
    proof {
        assert(list@ =~= seq!["Es un animal salvaje", "Ruge", "Es muy peludo"]);
    }
    r.push(animal("Oso", list));
    let list = vec!["Tiene lana"];
    proof {
        assert(list@ =~= seq!["Tiene lana"]);
    }
    r.push(animal("Oveja", list));
    let list = vec!["Tiene caparazon", "Pone huevos", "Es lento"];
    proof {
        assert(list@ =~= seq!["Tiene caparazon", "Pone huevos", "Es lento"]);
    }
    r.push(animal("Tortuga", list));
    let list = vec!["Es muy veloz", "Relincha", "Es muy fuerte"];
    proof {
        assert(list@ =~= seq!["Es muy veloz", "Relincha", "Es muy fuerte"]);
    }
    r.push(animal("Caballo", list));
    proof {
        assert(entities(r@) =~= initial_knowledge());
        reveal_strlit("Gato");
        reveal_strlit("Perro");
        reveal_strlit("León");
        reveal_strlit("Tigre");
        reveal_strlit("Oso");
        reveal_strlit("Oveja");
        reveal_strlit("Tortuga");
        reveal_strlit("Caballo");
    }
    r
}

/// Copies a list of labels.
pub fn copy_labels(v: &Vec<String>) -> (r: Vec<String>)
    ensures
        labels(r@) == labels(v@),
{
    let mut r: Vec<String> = Vec::new();
    let mut i: usize = 0;
    while i < v.len()
        invariant
            i <= v.len(),
            r@.len() == i,
            forall|j: int| 0 <= j < i ==> r@[j]@ == v@[j]@,
        decreases v.len() - i,
    {
        r.push(v[i].clone());
        i = i + 1;
    }
    proof {
        assert(labels(r@) =~= labels(v@));
    }
    r
}

impl Animal {
    /// A copy of this animal with the same name and characteristics.
    pub fn duplicate(&self) -> (r: Animal)
        ensures
            r@ == self@,
    {
        Animal { name: self.name.clone(), characteristics: copy_labels(&self.characteristics) }
    }

    /// Whether the characteristic is asserted of this animal.
    pub fn has(&self, c: &String) -> (r: bool)
        ensures
            r == self@.has(c@),
    {
        let mut i: usize = 0;
        while i < self.characteristics.len()
            invariant
                i <= self.characteristics.len(),
                forall|j: int| 0 <= j < i ==> self.characteristics@[j]@ != c@,
            decreases self.characteristics.len() - i,
        {
            if self.characteristics[i] == *c {
                proof {
                    assert(self@.characteristics[i as int] == c@);
                }
                return true;
            }
            i = i + 1;
        }
        proof {
            if self@.has(c@) {
                let k = choose|k: int|
                    0 <= k < self@.characteristics.len() && self@.characteristics[k] == c@;
                assert(self.characteristics@[k]@ == c@);
            }
        }
        false
    }
}

/// Learns an animal after the walker reached a leaf that knew no animal: the
/// new animal has exactly the characteristics confirmed along the way.
pub fn meet_animal_with_given_characteristics(
    animals: &mut Vec<Animal>,
    name: String,
    characteristics: Vec<String>,
)
    requires
        name@.len() > 0,
    ensures
        final(animals)@.len() == old(animals)@.len() + 1,
        entities(final(animals)@) == entities(old(animals)@).push(
            Entity { name: name@, characteristics: labels(characteristics@) },
        ),
{
    animals.push(Animal { name, characteristics });
    proof {
        assert(entities(animals@) =~= entities(old(animals)@).push(
            Entity { name: name@, characteristics: labels(characteristics@) },
        ));
    }
}

/// Learns an animal after a wrong guess: the new characteristic that tells it
/// from the guess is appended to the confirmed ones, and the animal gets
/// exactly that list.
pub fn meet_animal_with_new_characteristic(
    animals: &mut Vec<Animal>,
    characteristics: &mut Vec<String>,
    name: String,
    new_characteristic: String,
)
    requires
        name@.len() > 0,
    ensures
        labels(final(characteristics)@) == labels(old(characteristics)@).push(new_characteristic@),
        final(animals)@.len() == old(animals)@.len() + 1,
        entities(final(animals)@) == entities(old(animals)@).push(
            Entity {
                name: name@,
                characteristics: labels(old(characteristics)@).push(new_characteristic@),
            },
        ),
{
    characteristics.push(new_characteristic);
    proof {
        assert(labels(characteristics@) =~= labels(old(characteristics)@).push(
            new_characteristic@,
        ));
    }
    let learned = copy_labels(characteristics);
    meet_animal_with_given_characteristics(animals, name, learned);
}

} // verus!
