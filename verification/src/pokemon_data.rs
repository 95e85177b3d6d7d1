//! Static creature data carried by the asset pipeline: names, learned
//! skills, promotion items.  Only the plain data model lives here; the
//! asset files themselves are read and decoded by the host pipeline.

use vstd::prelude::*;

verus! {

/// A display name with its localized variants.
#[derive(Debug, Clone, PartialEq, Eq)]
pub struct Name {
    pub default_text: String,
    pub local_texts: LocalTexts,
}

/// Localized texts, one per supported language, each optional.
#[derive(Debug, Clone, PartialEq, Eq)]
pub struct LocalTexts {
    pub ja: Option<String>,
    pub ko: Option<String>,
    pub zh_hant: Option<String>,
    pub fr: Option<String>,
    pub de: Option<String>,
    pub es: Option<String>,
    pub it: Option<String>,
    pub ja_jp: Option<String>,
    pub zh_hans: Option<String>,
}

/// A skill learned on reaching a level.
#[derive(Debug, Clone, PartialEq, Eq)]
pub struct PokemonLevelSkill {
    pub level: i64,
    pub skill: String,
}

/// A skill name.
#[derive(Debug, Clone, PartialEq, Eq)]
pub struct PokemonSkill {
    pub skill: String,
}

/// A typed detail record with the level it applies at.
#[derive(Debug, Clone, PartialEq, Eq)]
pub struct PokemonDetail {
    pub detail_type: String,
    pub level: i64,
}

/// The ribbon items that trigger the sun/lunar promotions.
#[derive(Debug, Clone, Copy, PartialEq, Eq, Structural)]
pub struct EvoItemMap {
    pub evo_sun_ribbon: u32,
    pub evo_lunar_ribbon: u32,
}

/// How many of the level-up skills are known at the given level.
pub open spec fn known_skill_count(s: Seq<PokemonLevelSkill>, level: i64) -> nat
    decreases s.len(),
{
    if s.len() == 0 {
        0
    } else {
        (if s[0].level <= level {
            1nat
        } else {
            0nat
        }) + known_skill_count(s.drop_first(), level)
    }
}

/// Count the level-up skills already known at `level`.
pub fn skills_known_at(skills: &Vec<PokemonLevelSkill>, level: i64) -> (r: usize)
    ensures
        r == known_skill_count(skills@, level),
{
    let n = skills.len();
    let mut count: usize = 0;
    let mut i: usize = 0;
    proof {
        assert(skills@.skip(0) =~= skills@);
    }
    while i < n
        invariant
            i <= n,
            n == skills@.len(),
            count <= i,
            known_skill_count(skills@, level) == count + known_skill_count(
                skills@.skip(i as int),
                level,
            ),
        decreases n - i,
    {
        proof {
            assert(skills@.skip(i as int)[0] == skills@[i as int]);
            assert(skills@.skip(i as int).drop_first() =~= skills@.skip(i + 1));
        }
        if skills[i].level <= level {
            count += 1;
        }
        i += 1;
    }
    proof {
        assert(known_skill_count(skills@.skip(n as int), level) == 0);
    }
    count
}

} // verus!
