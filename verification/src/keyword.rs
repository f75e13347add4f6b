use crate::text::to_chars;
use vstd::prelude::*;

verus! {

/// A reserved word of the language.
#[derive(Debug, Clone, Copy, PartialEq, Eq, Structural)]
pub enum Keyword {
    /// もし
    If,
    /// なら
    Then,
    /// もしくは
    Elif,
    /// ちがえば
    Else,
    /// または
    Or,
    /// かつ
    And,
    /// 真
    True,
    /// 偽
    False,
    /// 無
    Null,
    /// 関数
    Function,
    /// かえす
    Return,
    /// くりかえし
    Loop,
    /// つぎへ
    Continue,
    /// ぬける
    Break,
    /// 表示
    Print,
    /// 配列
    Array,
    /// 長さ
    Length,
}

/// The keyword that `text` spells, if it spells one.
pub open spec fn keyword_of(text: Seq<char>) -> Option<Keyword> {
    if text == Keyword::If.spelling() {
        Some(Keyword::If)
    } else if text == Keyword::Then.spelling() {
        Some(Keyword::Then)
    } else if text == Keyword::Elif.spelling() {
        Some(Keyword::Elif)
    } else if text == Keyword::Else.spelling() {
        Some(Keyword::Else)
    } else if text == Keyword::Or.spelling() {
        Some(Keyword::Or)
    } else if text == Keyword::And.spelling() {
        Some(Keyword::And)
    } else if text == Keyword::True.spelling() {
        Some(Keyword::True)
    } else if text == Keyword::False.spelling() {
        Some(Keyword::False)
    } else if text == Keyword::Null.spelling() {
        Some(Keyword::Null)
    } else if text == Keyword::Function.spelling() {
        Some(Keyword::Function)
    } else if text == Keyword::Return.spelling() {
        Some(Keyword::Return)
    } else if text == Keyword::Loop.spelling() {
        Some(Keyword::Loop)
    } else if text == Keyword::Continue.spelling() {
        Some(Keyword::Continue)
    } else if text == Keyword::Break.spelling() {
        Some(Keyword::Break)
    } else if text == Keyword::Print.spelling() {
        Some(Keyword::Print)
    } else if text == Keyword::Array.spelling() {
        Some(Keyword::Array)
    } else if text == Keyword::Length.spelling() {
        Some(Keyword::Length)
    } else {
        None
    }
}

/// Whether `text` and `word` hold the same characters.
fn same_chars(text: &Vec<char>, word: &[char]) -> (same: bool)
    ensures
        same == (text@ == word@),
{
    if text.len() != word.len() {
        return false;
    }
    let mut index: usize = 0;
    while index < text.len()
        invariant
            index <= text.len(),
            text.len() == word.len(),
            forall|i: int| 0 <= i < index ==> text@[i] == word@[i],
        decreases text.len() - index,
    {
        if text[index] != word[index] {
            return false;
        }
        index += 1;
    }
    assert(text@ =~= word@);
    true
}

impl Keyword {
    /// The spelling of the keyword in source text.
    pub open spec fn spelling(self) -> Seq<char> {
        match self {
            Keyword::If => "もし"@,
            Keyword::Then => "なら"@,
            Keyword::Elif => "もしくは"@,
            Keyword::Else => "ちがえば"@,
            Keyword::Or => "または"@,
            Keyword::And => "かつ"@,
            Keyword::True => "真"@,
            Keyword::False => "偽"@,
            Keyword::Null => "無"@,
            Keyword::Function => "関数"@,
            Keyword::Return => "かえす"@,
            Keyword::Loop => "くりかえし"@,
            Keyword::Continue => "つぎへ"@,
            Keyword::Break => "ぬける"@,
            Keyword::Print => "表示"@,
            Keyword::Array => "配列"@,
            Keyword::Length => "長さ"@,
        }
    }

    /// Whether `text` is the spelling of this keyword.
    pub fn spells(self, text: &Vec<char>) -> (same: bool)
        ensures
            same == (text@ == self.spelling()),
    {
        match self {
            Keyword::If => {
                let word: [char; 2] = ['も', 'し'];
                proof {
                    reveal_strlit("もし");
                }
                assert(word@ =~= self.spelling());
                same_chars(text, &word)
            },
            Keyword::Then => {
                let word: [char; 2] = ['な', 'ら'];
                proof {
                    reveal_strlit("なら");
                }
                assert(word@ =~= self.spelling());
                same_chars(text, &word)
            },
            Keyword::Elif => {
                let word: [char; 4] = ['も', 'し', 'く', 'は'];
                proof {
                    reveal_strlit("もしくは");
                }
                assert(word@ =~= self.spelling());
                same_chars(text, &word)
            },
            Keyword::Else => {
                let word: [char; 4] = ['ち', 'が', 'え', 'ば'];
                proof {
                    reveal_strlit("ちがえば");
                }
                assert(word@ =~= self.spelling());
                same_chars(text, &word)
            },
            Keyword::Or => {
                let word: [char; 3] = ['ま', 'た', 'は'];
                proof {
                    reveal_strlit("または");
                }
                assert(word@ =~= self.spelling());
                same_chars(text, &word)
            },
            Keyword::And => {
                let word: [char; 2] = ['か', 'つ'];
                proof {
                    reveal_strlit("かつ");
                }
                assert(word@ =~= self.spelling());
                same_chars(text, &word)
            },
            Keyword::True => {
                let word: [char; 1] = ['真'];
                proof {
                    reveal_strlit("真");
                }
                assert(word@ =~= self.spelling());
                same_chars(text, &word)
            },
            Keyword::False => {
                let word: [char; 1] = ['偽'];
                proof {
                    reveal_strlit("偽");
                }
                assert(word@ =~= self.spelling());
                same_chars(text, &word)
            },
            Keyword::Null => {
                let word: [char; 1] = ['無'];
                proof {
                    reveal_strlit("無");
                }
                assert(word@ =~= self.spelling());
                same_chars(text, &word)
            },
            Keyword::Function => {
                let word: [char; 2] = ['関', '数'];
                proof {
                    reveal_strlit("関数");
                }
                assert(word@ =~= self.spelling());
                same_chars(text, &word)
            },
            Keyword::Return => {
                let word: [char; 3] = ['か', 'え', 'す'];
                proof {
                    reveal_strlit("かえす");
                }
                assert(word@ =~= self.spelling());
                same_chars(text, &word)
            },
            Keyword::Loop => {
                let word: [char; 5] = ['く', 'り', 'か', 'え', 'し'];
                proof {
                    reveal_strlit("くりかえし");
                }
                assert(word@ =~= self.spelling());
                same_chars(text, &word)
            },
            Keyword::Continue => {
                let word: [char; 3] = ['つ', 'ぎ', 'へ'];
                proof {
                    reveal_strlit("つぎへ");
                }
                assert(word@ =~= self.spelling());
                same_chars(text, &word)
            },
            Keyword::Break => {
                let word: [char; 3] = ['ぬ', 'け', 'る'];
                proof {
                    reveal_strlit("ぬける");
                }
                assert(word@ =~= self.spelling());
                same_chars(text, &word)
            },
            Keyword::Print => {
                let word: [char; 2] = ['表', '示'];
                proof {
                    reveal_strlit("表示");
                }
                assert(word@ =~= self.spelling());
                same_chars(text, &word)
            },
            Keyword::Array => {
                let word: [char; 2] = ['配', '列'];
                proof {
                    reveal_strlit("配列");
                }
                assert(word@ =~= self.spelling());
                same_chars(text, &word)
            },
            Keyword::Length => {
                let word: [char; 2] = ['長', 'さ'];
                proof {
                    reveal_strlit("長さ");
                }
                assert(word@ =~= self.spelling());
                same_chars(text, &word)
            },
        }
    }

    /// The name of the keyword, which is its `Debug` form.
    pub open spec fn name(self) -> Seq<char> {
        match self {
            Keyword::If => "If"@,
            Keyword::Then => "Then"@,
            Keyword::Elif => "Elif"@,
            Keyword::Else => "Else"@,
            Keyword::Or => "Or"@,
            Keyword::And => "And"@,
            Keyword::True => "True"@,
            Keyword::False => "False"@,
            Keyword::Null => "Null"@,
            Keyword::Function => "Function"@,
            Keyword::Return => "Return"@,
            Keyword::Loop => "Loop"@,
            Keyword::Continue => "Continue"@,
            Keyword::Break => "Break"@,
            Keyword::Print => "Print"@,
            Keyword::Array => "Array"@,
            Keyword::Length => "Length"@,
        }
    }

    /// Writes the name of the keyword.
    pub fn debug_text(&self) -> (text: String)
        ensures
            text@ == self.name(),
    {
        match self {
            Keyword::If => "If".to_owned(),
            Keyword::Then => "Then".to_owned(),
            Keyword::Elif => "Elif".to_owned(),
            Keyword::Else => "Else".to_owned(),
            Keyword::Or => "Or".to_owned(),
            Keyword::And => "And".to_owned(),
            Keyword::True => "True".to_owned(),
            Keyword::False => "False".to_owned(),
            Keyword::Null => "Null".to_owned(),
            Keyword::Function => "Function".to_owned(),
            Keyword::Return => "Return".to_owned(),
            Keyword::Loop => "Loop".to_owned(),
            Keyword::Continue => "Continue".to_owned(),
            Keyword::Break => "Break".to_owned(),
            Keyword::Print => "Print".to_owned(),
            Keyword::Array => "Array".to_owned(),
            Keyword::Length => "Length".to_owned(),
        }
    }

    /// Renders the keyword as it is spelled in source text.
    pub fn to_string(&self) -> (text: String)
        ensures
            text@ == self.spelling(),
    {
        match self {
            Keyword::If => "もし".to_owned(),
            Keyword::Then => "なら".to_owned(),
            Keyword::Elif => "もしくは".to_owned(),
            Keyword::Else => "ちがえば".to_owned(),
            Keyword::Or => "または".to_owned(),
            Keyword::And => "かつ".to_owned(),
            Keyword::True => "真".to_owned(),
            Keyword::False => "偽".to_owned(),
            Keyword::Null => "無".to_owned(),
            Keyword::Function => "関数".to_owned(),
            Keyword::Return => "かえす".to_owned(),
            Keyword::Loop => "くりかえし".to_owned(),
            Keyword::Continue => "つぎへ".to_owned(),
            Keyword::Break => "ぬける".to_owned(),
            Keyword::Print => "表示".to_owned(),
            Keyword::Array => "配列".to_owned(),
            Keyword::Length => "長さ".to_owned(),
        }
    }

    /// Reads a keyword from its spelling; any other text is refused.
    pub fn from_str(text: &str) -> (parsed: Result<Keyword, ()>)
        ensures
            parsed == match keyword_of(text@) {
                Some(keyword) => Ok::<Keyword, ()>(keyword),
                None => Err::<Keyword, ()>(()),
            },
    {
        let chars = to_chars(text);
        match Keyword::lookup(&chars) {
            Some(keyword) => Ok(keyword),
            None => Err(()),
        }
    }

    /// Looks `text` up among the keyword spellings.
    pub fn lookup(text: &Vec<char>) -> (found: Option<Keyword>)
        ensures
            found == keyword_of(text@),
    {
        if Keyword::If.spells(text) {
            Some(Keyword::If)
        } else if Keyword::Then.spells(text) {
            Some(Keyword::Then)
        } else if Keyword::Elif.spells(text) {
            Some(Keyword::Elif)
        } else if Keyword::Else.spells(text) {
            Some(Keyword::Else)
        } else if Keyword::Or.spells(text) {
            Some(Keyword::Or)
        } else if Keyword::And.spells(text) {
            Some(Keyword::And)
        } else if Keyword::True.spells(text) {
            Some(Keyword::True)
        } else if Keyword::False.spells(text) {
            Some(Keyword::False)
        } else if Keyword::Null.spells(text) {
            Some(Keyword::Null)
        } else if Keyword::Function.spells(text) {
            Some(Keyword::Function)
        } else if Keyword::Return.spells(text) {
            Some(Keyword::Return)
        } else if Keyword::Loop.spells(text) {
            Some(Keyword::Loop)
        } else if Keyword::Continue.spells(text) {
            Some(Keyword::Continue)
        } else if Keyword::Break.spells(text) {
            Some(Keyword::Break)
        } else if Keyword::Print.spells(text) {
            Some(Keyword::Print)
        } else if Keyword::Array.spells(text) {
            Some(Keyword::Array)
        } else if Keyword::Length.spells(text) {
            Some(Keyword::Length)
        } else {
            None
        }
    }
}

/// Every keyword is found again from its own spelling: no two keywords share
/// one.
pub proof fn lemma_keyword_of_spelling(keyword: Keyword)
    ensures
        keyword_of(keyword.spelling()) == Some(keyword),
{
    reveal_strlit("もし");
    assert(Keyword::If.spelling().len() == 2 && Keyword::If.spelling()[0] == 'も');
    reveal_strlit("なら");
    assert(Keyword::Then.spelling().len() == 2 && Keyword::Then.spelling()[0] == 'な');
    reveal_strlit("もしくは");
    assert(Keyword::Elif.spelling().len() == 4 && Keyword::Elif.spelling()[0] == 'も');
    reveal_strlit("ちがえば");
    assert(Keyword::Else.spelling().len() == 4 && Keyword::Else.spelling()[0] == 'ち');
    reveal_strlit("または");
    assert(Keyword::Or.spelling().len() == 3 && Keyword::Or.spelling()[0] == 'ま');
    reveal_strlit("かつ");
    assert(Keyword::And.spelling().len() == 2 && Keyword::And.spelling()[0] == 'か');
    reveal_strlit("真");
    assert(Keyword::True.spelling().len() == 1 && Keyword::True.spelling()[0] == '真');
    reveal_strlit("偽");
    assert(Keyword::False.spelling().len() == 1 && Keyword::False.spelling()[0] == '偽');
    reveal_strlit("無");
    assert(Keyword::Null.spelling().len() == 1 && Keyword::Null.spelling()[0] == '無');
    reveal_strlit("関数");
    assert(Keyword::Function.spelling().len() == 2 && Keyword::Function.spelling()[0] == '関');
    reveal_strlit("かえす");
    assert(Keyword::Return.spelling().len() == 3 && Keyword::Return.spelling()[0] == 'か');
    reveal_strlit("くりかえし");
    assert(Keyword::Loop.spelling().len() == 5 && Keyword::Loop.spelling()[0] == 'く');
    reveal_strlit("つぎへ");
    assert(Keyword::Continue.spelling().len() == 3 && Keyword::Continue.spelling()[0] == 'つ');
    reveal_strlit("ぬける");
    assert(Keyword::Break.spelling().len() == 3 && Keyword::Break.spelling()[0] == 'ぬ');
    reveal_strlit("表示");
    assert(Keyword::Print.spelling().len() == 2 && Keyword::Print.spelling()[0] == '表');
    reveal_strlit("配列");
    assert(Keyword::Array.spelling().len() == 2 && Keyword::Array.spelling()[0] == '配');
    reveal_strlit("長さ");
    assert(Keyword::Length.spelling().len() == 2 && Keyword::Length.spelling()[0] == '長');
}

} // verus!
