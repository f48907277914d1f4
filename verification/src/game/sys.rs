//! The server-published game catalogue: organisms, tools, quality grades and
//! challenge targets.
//!
//! The catalogue is loaded once at startup by the surrounding program and
//! handed to the functions that need it as a shared, read-only value; nothing
//! here reaches for global state.
use vstd::prelude::*;

use crate::game::{Grade, Id};
use crate::util::str_eq;

verus! {

/// The whole catalogue: every organism and every tool the server knows.
pub struct SysInfo {
    pub organisms: Vec<Organism>,
    pub tools: Vec<Tool>,
}

impl SysInfo {
    /// Bundles a loaded catalogue.
    pub fn new(organisms: Vec<Organism>, tools: Vec<Tool>) -> (r: SysInfo)
        ensures
            r.organisms@ == organisms@,
            r.tools@ == tools@,
    {
        SysInfo { organisms, tools }
    }

    /// The catalogued organisms.
    pub fn organisms(&self) -> (r: &Vec<Organism>)
        ensures
            r@ == self.organisms@,
    {
        &self.organisms
    }

    /// The catalogued tools.
    pub fn tools(&self) -> (r: &Vec<Tool>)
        ensures
            r@ == self.tools@,
    {
        &self.tools
    }
}

/// One species in the catalogue.
pub struct Organism {
    pub id: Id,
    pub name: String,
    pub organism_type: u32,
    /// Elemental attribute.
    pub attribute: String,
    pub height: u32,
    pub width: u32,
    pub image_id: Id,
    pub evolutions: Vec<Evolution>,
}

/// One evolution step of an organism.
pub struct Evolution {
    pub id: Id,
    pub grade: Grade,
    pub target: Id,
    pub tool_id: Id,
    pub money: usize,
}

/// One item in the catalogue.
pub struct Tool {
    pub tool_id: Id,
    pub name: String,
    pub image_id: Id,
    pub tool_type: u32,
    pub kind_name: String,
}

/// A quality grade, from lowest to highest. Each grade is displayed and
/// parsed under its Chinese name (see [`Quality::name`]).
#[derive(Clone, Copy, Debug, PartialEq, Eq, PartialOrd, Ord, Structural)]
pub enum Quality {
    Inferior,
    Common,
    Fine,
    Refined,
    Superb,
    Epic,
    Legend,
    Artifact,
    DemonKing,
    WarGod,
    Supreme,
    DemonGod,
    Dazzling,
    Immortal,
    Eternal,
    Exalted,
    Boundless,
    Chaos,
}

/// The display name of a quality grade.
pub open spec fn spec_quality_name(q: Quality) -> Seq<char> {
    match q {
        Quality::Inferior => "劣质"@,
        Quality::Common => "普通"@,
        Quality::Fine => "优秀"@,
        Quality::Refined => "精良"@,
        Quality::Superb => "极品"@,
        Quality::Epic => "史诗"@,
        Quality::Legend => "传说"@,
        Quality::Artifact => "神器"@,
        Quality::DemonKing => "魔王"@,
        Quality::WarGod => "战神"@,
        Quality::Supreme => "至尊"@,
        Quality::DemonGod => "魔神"@,
        Quality::Dazzling => "耀世"@,
        Quality::Immortal => "不朽"@,
        Quality::Eternal => "永恒"@,
        Quality::Exalted => "太上"@,
        Quality::Boundless => "无极"@,
        Quality::Chaos => "混沌"@,
    }
}

/// The quality grade a piece of text names, scanning the grades from lowest
/// to highest, or `None` when it names none.
pub open spec fn spec_quality_from_name(s: Seq<char>) -> Option<Quality> {
    if s == "劣质"@ {
        Some(Quality::Inferior)
    } else if s == "普通"@ {
        Some(Quality::Common)
    } else if s == "优秀"@ {
        Some(Quality::Fine)
    } else if s == "精良"@ {
        Some(Quality::Refined)
    } else if s == "极品"@ {
        Some(Quality::Superb)
    } else if s == "史诗"@ {
        Some(Quality::Epic)
    } else if s == "传说"@ {
        Some(Quality::Legend)
    } else if s == "神器"@ {
        Some(Quality::Artifact)
    } else if s == "魔王"@ {
        Some(Quality::DemonKing)
    } else if s == "战神"@ {
        Some(Quality::WarGod)
    } else if s == "至尊"@ {
        Some(Quality::Supreme)
    } else if s == "魔神"@ {
        Some(Quality::DemonGod)
    } else if s == "耀世"@ {
        Some(Quality::Dazzling)
    } else if s == "不朽"@ {
        Some(Quality::Immortal)
    } else if s == "永恒"@ {
        Some(Quality::Eternal)
    } else if s == "太上"@ {
        Some(Quality::Exalted)
    } else if s == "无极"@ {
        Some(Quality::Boundless)
    } else if s == "混沌"@ {
        Some(Quality::Chaos)
    } else {
        None
    }
}

/// Every grade's display name parses back to that grade: the eighteen
/// names are pairwise distinct.
pub proof fn lemma_quality_name_round_trip(q: Quality)
    ensures
        spec_quality_from_name(spec_quality_name(q)) == Some(q),
{
    reveal_strlit("劣质");
    reveal_strlit("普通");
    reveal_strlit("优秀");
    reveal_strlit("精良");
    reveal_strlit("极品");
    reveal_strlit("史诗");
    reveal_strlit("传说");
    reveal_strlit("神器");
    reveal_strlit("魔王");
    reveal_strlit("战神");
    reveal_strlit("至尊");
    reveal_strlit("魔神");
    reveal_strlit("耀世");
    reveal_strlit("不朽");
    reveal_strlit("永恒");
    reveal_strlit("太上");
    reveal_strlit("无极");
    reveal_strlit("混沌");
    assert("劣质"@[0] == '劣');
    assert("普通"@[0] == '普');
    assert("优秀"@[0] == '优');
    assert("精良"@[0] == '精');
    assert("极品"@[0] == '极');
    assert("史诗"@[0] == '史');
    assert("传说"@[0] == '传');
    assert("神器"@[0] == '神');
    assert("魔王"@[0] == '魔');
    assert("战神"@[0] == '战');
    assert("至尊"@[0] == '至');
    assert("魔神"@[0] == '魔');
    assert("耀世"@[0] == '耀');
    assert("不朽"@[0] == '不');
    assert("永恒"@[0] == '永');
    assert("太上"@[0] == '太');
    assert("无极"@[0] == '无');
    assert("混沌"@[0] == '混');
    assert("魔王"@[1] == '王');
    assert("魔神"@[1] == '神');
}

impl Quality {
    /// The display name of this grade.
    pub fn name(&self) -> (r: &'static str)
        ensures
            r@ == spec_quality_name(*self),
    {
        match self {
            Quality::Inferior => "劣质",
            Quality::Common => "普通",
            Quality::Fine => "优秀",
            Quality::Refined => "精良",
            Quality::Superb => "极品",
            Quality::Epic => "史诗",
            Quality::Legend => "传说",
            Quality::Artifact => "神器",
            Quality::DemonKing => "魔王",
            Quality::WarGod => "战神",
            Quality::Supreme => "至尊",
            Quality::DemonGod => "魔神",
            Quality::Dazzling => "耀世",
            Quality::Immortal => "不朽",
            Quality::Eternal => "永恒",
            Quality::Exalted => "太上",
            Quality::Boundless => "无极",
            Quality::Chaos => "混沌",
        }
    }

    /// Parses a grade from its display name; `None` for any other text.
    pub fn from_name(s: &str) -> (r: Option<Quality>)
        ensures
            r == spec_quality_from_name(s@),
    {
        if str_eq(s, "劣质") {
            Some(Quality::Inferior)
        } else if str_eq(s, "普通") {
            Some(Quality::Common)
        } else if str_eq(s, "优秀") {
            Some(Quality::Fine)
        } else if str_eq(s, "精良") {
            Some(Quality::Refined)
        } else if str_eq(s, "极品") {
            Some(Quality::Superb)
        } else if str_eq(s, "史诗") {
            Some(Quality::Epic)
        } else if str_eq(s, "传说") {
            Some(Quality::Legend)
        } else if str_eq(s, "神器") {
            Some(Quality::Artifact)
        } else if str_eq(s, "魔王") {
            Some(Quality::DemonKing)
        } else if str_eq(s, "战神") {
            Some(Quality::WarGod)
        } else if str_eq(s, "至尊") {
            Some(Quality::Supreme)
        } else if str_eq(s, "魔神") {
            Some(Quality::DemonGod)
        } else if str_eq(s, "耀世") {
            Some(Quality::Dazzling)
        } else if str_eq(s, "不朽") {
            Some(Quality::Immortal)
        } else if str_eq(s, "永恒") {
            Some(Quality::Eternal)
        } else if str_eq(s, "太上") {
            Some(Quality::Exalted)
        } else if str_eq(s, "无极") {
            Some(Quality::Boundless)
        } else if str_eq(s, "混沌") {
            Some(Quality::Chaos)
        } else {
            None
        }
    }
}

/// The kinds of instanced challenge a client can start.
pub enum ChallengeType {
    /// A world instance.
    Fuben,
    /// A gem instance.
    Stone,
}

impl ChallengeType {
    /// The remote operation each challenge kind is dispatched to.
    pub fn get_amf_target(challenge_type: &ChallengeType) -> (r: &'static str)
        ensures
            challenge_type is Fuben ==> r@ == "api.fuben.challenge"@,
            challenge_type is Stone ==> r@ == "api.stone.challenge"@,
    {
        match challenge_type {
            ChallengeType::Fuben => "api.fuben.challenge",
            ChallengeType::Stone => "api.stone.challenge",
        }
    }
}

/// Which refresh book a quality refresh uses.
#[derive(Clone, Copy, Debug, PartialEq, Eq, Structural)]
pub enum QualityUpType {
    /// The ordinary refresh book.
    General,
    /// The demon-god refresh book.
    Moshen,
}

/// A source of the server's catalogue, for the surrounding program to
/// implement over whatever transport it has.
pub trait GetSysInfo {
    /// Fetches the tool catalogue.
    fn get_tools(&self) -> Vec<Tool>;

    /// Fetches the organism catalogue.
    fn get_oganisms(&self) -> Vec<Organism>;
}

} // verus!
