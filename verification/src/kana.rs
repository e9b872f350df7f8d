//! The shared bidirectional kana syllabary table.
//!
//! One immutable mapping between katakana and hiragana syllables, including
//! the small-kana digraphs.  It serves two callers: the script classifier,
//! which checks whether a reading's first character appears on either side,
//! and the general transliteration utility, which converts one syllable at
//! a time in either direction.

use vstd::prelude::*;

use crate::text::str_eq;

verus! {

// The syllabary, in table order, split into groups small enough for the
// table-construction proof to handle one at a time.
pub open spec fn kana_rows_a() -> Seq<(Seq<char>, Seq<char>)> {
    seq![
        ("ア"@, "あ"@),
        ("イ"@, "い"@),
        ("ウ"@, "う"@),
        ("エ"@, "え"@),
        ("オ"@, "お"@),
        ("カ"@, "か"@),
        ("キ"@, "き"@),
        ("ク"@, "く"@),
        ("ケ"@, "け"@),
        ("コ"@, "こ"@),
        ("サ"@, "さ"@),
        ("シ"@, "し"@),
        ("ス"@, "す"@),
        ("セ"@, "せ"@),
        ("ソ"@, "そ"@),
        ("タ"@, "た"@),
    ]
}

pub open spec fn kana_rows_b() -> Seq<(Seq<char>, Seq<char>)> {
    seq![
        ("チ"@, "ち"@),
        ("ツ"@, "つ"@),
        ("テ"@, "て"@),
        ("ト"@, "と"@),
        ("ナ"@, "な"@),
        ("ニ"@, "に"@),
        ("ヌ"@, "ぬ"@),
        ("ネ"@, "ね"@),
        ("ノ"@, "の"@),
        ("ハ"@, "は"@),
        ("ヒ"@, "ひ"@),
        ("フ"@, "ふ"@),
        ("ヘ"@, "へ"@),
        ("ホ"@, "ほ"@),
        ("マ"@, "ま"@),
        ("ミ"@, "み"@),
    ]
}

pub open spec fn kana_rows_c() -> Seq<(Seq<char>, Seq<char>)> {
    seq![
        ("ム"@, "む"@),
        ("メ"@, "め"@),
        ("モ"@, "も"@),
        ("ヤ"@, "や"@),
        ("ユ"@, "ゆ"@),
        ("ヨ"@, "よ"@),
        ("ラ"@, "ら"@),
        ("リ"@, "り"@),
        ("ル"@, "る"@),
        ("レ"@, "れ"@),
        ("ロ"@, "ろ"@),
        ("ワ"@, "わ"@),
        ("ヲ"@, "を"@),
        ("ン"@, "ん"@),
        ("ガ"@, "が"@),
        ("ギ"@, "ぎ"@),
    ]
}

pub open spec fn kana_rows_d() -> Seq<(Seq<char>, Seq<char>)> {
    seq![
        ("グ"@, "ぐ"@),
        ("ゲ"@, "げ"@),
        ("ゴ"@, "ご"@),
        ("ザ"@, "ざ"@),
        ("ジ"@, "じ"@),
        ("ズ"@, "ず"@),
        ("ゼ"@, "ぜ"@),
        ("ゾ"@, "ぞ"@),
        ("ダ"@, "だ"@),
        ("ヂ"@, "ぢ"@),
        ("ヅ"@, "づ"@),
        ("デ"@, "で"@),
        ("ド"@, "ど"@),
        ("バ"@, "ば"@),
        ("ビ"@, "び"@),
        ("ブ"@, "ぶ"@),
    ]
}

pub open spec fn kana_rows_e() -> Seq<(Seq<char>, Seq<char>)> {
    seq![
        ("ベ"@, "べ"@),
        ("ボ"@, "ぼ"@),
        ("パ"@, "ぱ"@),
        ("ピ"@, "ぴ"@),
        ("プ"@, "ぷ"@),
        ("ペ"@, "ぺ"@),
        ("ポ"@, "ぽ"@),
        ("キャ"@, "きゃ"@),
        ("キュ"@, "きゅ"@),
        ("キョ"@, "きょ"@),
        ("シャ"@, "しゃ"@),
        ("シュ"@, "しゅ"@),
        ("ショ"@, "しょ"@),
        ("チャ"@, "ちゃ"@),
        ("チュ"@, "ちゅ"@),
        ("チョ"@, "ちょ"@),
    ]
}

pub open spec fn kana_rows_f() -> Seq<(Seq<char>, Seq<char>)> {
    seq![
        ("ニャ"@, "にゃ"@),
        ("ニュ"@, "にゅ"@),
        ("ニョ"@, "にょ"@),
        ("ヒャ"@, "ひゃ"@),
        ("ヒュ"@, "ひゅ"@),
        ("ヒョ"@, "ひょ"@),
        ("ミャ"@, "みゃ"@),
        ("ミュ"@, "みゅ"@),
        ("ミョ"@, "みょ"@),
        ("リャ"@, "りゃ"@),
        ("リュ"@, "りゅ"@),
        ("リョ"@, "りょ"@),
        ("ギャ"@, "ぎゃ"@),
        ("ギュ"@, "ぎゅ"@),
        ("ギョ"@, "ぎょ"@),
        ("ジャ"@, "じゃ"@),
    ]
}

pub open spec fn kana_rows_g() -> Seq<(Seq<char>, Seq<char>)> {
    seq![
        ("ジュ"@, "じゅ"@),
        ("ジョ"@, "じょ"@),
        ("ビャ"@, "びゃ"@),
        ("ビュ"@, "びゅ"@),
        ("ビョ"@, "びょ"@),
        ("ピャ"@, "ぴゃ"@),
        ("ピュ"@, "ぴゅ"@),
        ("ピョ"@, "ぴょ"@),
    ]
}

/// The `(katakana, hiragana)` pairs of the syllabary, in table order.
pub open spec fn kana_pairs() -> Seq<(Seq<char>, Seq<char>)> {
    kana_rows_a() + kana_rows_b() + kana_rows_c() + kana_rows_d() + kana_rows_e() + kana_rows_f() + kana_rows_g()
}

/// The character sequences of a table of `String` pairs.
pub open spec fn pair_views(ps: Seq<(String, String)>) -> Seq<(Seq<char>, Seq<char>)> {
    ps.map_values(|p: (String, String)| (p.0@, p.1@))
}

/// The hiragana spelling paired with `key` in the katakana column.
pub open spec fn assoc_katakana(pairs: Seq<(Seq<char>, Seq<char>)>, key: Seq<char>) -> Option<
    Seq<char>,
>
    decreases pairs.len(),
{
    if pairs.len() == 0 {
        Option::None
    } else if pairs.first().0 == key {
        Option::Some(pairs.first().1)
    } else {
        assoc_katakana(pairs.drop_first(), key)
    }
}

/// The katakana spelling paired with `key` in the hiragana column.
pub open spec fn assoc_hiragana(pairs: Seq<(Seq<char>, Seq<char>)>, key: Seq<char>) -> Option<
    Seq<char>,
>
    decreases pairs.len(),
{
    if pairs.len() == 0 {
        Option::None
    } else if pairs.first().1 == key {
        Option::Some(pairs.first().0)
    } else {
        assoc_hiragana(pairs.drop_first(), key)
    }
}

/// Whether `c` appears, as a single-character syllable, on either side of
/// the table: a kana character in the sense of the script classifier.
pub open spec fn is_kana_char(c: char) -> bool {
    exists|i: int|
        0 <= i < kana_pairs().len() && ((#[trigger] kana_pairs()[i]).0 == seq![c]
            || kana_pairs()[i].1 == seq![c])
}

/// The syllabary table as a value.  Built once at startup and shared.
pub struct KanaTable {
    pub pairs: Vec<(String, String)>,
}

fn push_rows_a(v: &mut Vec<(String, String)>)
    ensures
        pair_views(final(v)@) == pair_views(old(v)@) + kana_rows_a(),
{
    let ghost v0 = v@;
    v.push(("ア".to_owned(), "あ".to_owned()));
    v.push(("イ".to_owned(), "い".to_owned()));
    v.push(("ウ".to_owned(), "う".to_owned()));
    v.push(("エ".to_owned(), "え".to_owned()));
    v.push(("オ".to_owned(), "お".to_owned()));
    v.push(("カ".to_owned(), "か".to_owned()));
    v.push(("キ".to_owned(), "き".to_owned()));
    v.push(("ク".to_owned(), "く".to_owned()));
    v.push(("ケ".to_owned(), "け".to_owned()));
    v.push(("コ".to_owned(), "こ".to_owned()));
    v.push(("サ".to_owned(), "さ".to_owned()));
    v.push(("シ".to_owned(), "し".to_owned()));
    v.push(("ス".to_owned(), "す".to_owned()));
    v.push(("セ".to_owned(), "せ".to_owned()));
    v.push(("ソ".to_owned(), "そ".to_owned()));
    v.push(("タ".to_owned(), "た".to_owned()));
    proof {
        assert(pair_views(v@) =~= pair_views(v0) + kana_rows_a());
    }
}

fn push_rows_b(v: &mut Vec<(String, String)>)
    ensures
        pair_views(final(v)@) == pair_views(old(v)@) + kana_rows_b(),
{
    let ghost v0 = v@;
    v.push(("チ".to_owned(), "ち".to_owned()));
    v.push(("ツ".to_owned(), "つ".to_owned()));
    v.push(("テ".to_owned(), "て".to_owned()));
    v.push(("ト".to_owned(), "と".to_owned()));
    v.push(("ナ".to_owned(), "な".to_owned()));
    v.push(("ニ".to_owned(), "に".to_owned()));
    v.push(("ヌ".to_owned(), "ぬ".to_owned()));
    v.push(("ネ".to_owned(), "ね".to_owned()));
    v.push(("ノ".to_owned(), "の".to_owned()));
    v.push(("ハ".to_owned(), "は".to_owned()));
    v.push(("ヒ".to_owned(), "ひ".to_owned()));
    v.push(("フ".to_owned(), "ふ".to_owned()));
    v.push(("ヘ".to_owned(), "へ".to_owned()));
    v.push(("ホ".to_owned(), "ほ".to_owned()));
    v.push(("マ".to_owned(), "ま".to_owned()));
    v.push(("ミ".to_owned(), "み".to_owned()));
    proof {
        assert(pair_views(v@) =~= pair_views(v0) + kana_rows_b());
    }
}

fn push_rows_c(v: &mut Vec<(String, String)>)
    ensures
        pair_views(final(v)@) == pair_views(old(v)@) + kana_rows_c(),
{
    let ghost v0 = v@;
    v.push(("ム".to_owned(), "む".to_owned()));
    v.push(("メ".to_owned(), "め".to_owned()));
    v.push(("モ".to_owned(), "も".to_owned()));
    v.push(("ヤ".to_owned(), "や".to_owned()));
    v.push(("ユ".to_owned(), "ゆ".to_owned()));
    v.push(("ヨ".to_owned(), "よ".to_owned()));
    v.push(("ラ".to_owned(), "ら".to_owned()));
    v.push(("リ".to_owned(), "り".to_owned()));
    v.push(("ル".to_owned(), "る".to_owned()));
    v.push(("レ".to_owned(), "れ".to_owned()));
    v.push(("ロ".to_owned(), "ろ".to_owned()));
    v.push(("ワ".to_owned(), "わ".to_owned()));
    v.push(("ヲ".to_owned(), "を".to_owned()));
    v.push(("ン".to_owned(), "ん".to_owned()));
    v.push(("ガ".to_owned(), "が".to_owned()));
    v.push(("ギ".to_owned(), "ぎ".to_owned()));
    proof {
        assert(pair_views(v@) =~= pair_views(v0) + kana_rows_c());
    }
}

fn push_rows_d(v: &mut Vec<(String, String)>)
    ensures
        pair_views(final(v)@) == pair_views(old(v)@) + kana_rows_d(),
{
    let ghost v0 = v@;
    v.push(("グ".to_owned(), "ぐ".to_owned()));
    v.push(("ゲ".to_owned(), "げ".to_owned()));
    v.push(("ゴ".to_owned(), "ご".to_owned()));
    v.push(("ザ".to_owned(), "ざ".to_owned()));
    v.push(("ジ".to_owned(), "じ".to_owned()));
    v.push(("ズ".to_owned(), "ず".to_owned()));
    v.push(("ゼ".to_owned(), "ぜ".to_owned()));
    v.push(("ゾ".to_owned(), "ぞ".to_owned()));
    v.push(("ダ".to_owned(), "だ".to_owned()));
    v.push(("ヂ".to_owned(), "ぢ".to_owned()));
    v.push(("ヅ".to_owned(), "づ".to_owned()));
    v.push(("デ".to_owned(), "で".to_owned()));
    v.push(("ド".to_owned(), "ど".to_owned()));
    v.push(("バ".to_owned(), "ば".to_owned()));
    v.push(("ビ".to_owned(), "び".to_owned()));
    v.push(("ブ".to_owned(), "ぶ".to_owned()));
    proof {
        assert(pair_views(v@) =~= pair_views(v0) + kana_rows_d());
    }
}

fn push_rows_e(v: &mut Vec<(String, String)>)
    ensures
        pair_views(final(v)@) == pair_views(old(v)@) + kana_rows_e(),
{
    let ghost v0 = v@;
    v.push(("ベ".to_owned(), "べ".to_owned()));
    v.push(("ボ".to_owned(), "ぼ".to_owned()));
    v.push(("パ".to_owned(), "ぱ".to_owned()));
    v.push(("ピ".to_owned(), "ぴ".to_owned()));
    v.push(("プ".to_owned(), "ぷ".to_owned()));
    v.push(("ペ".to_owned(), "ぺ".to_owned()));
    v.push(("ポ".to_owned(), "ぽ".to_owned()));
    v.push(("キャ".to_owned(), "きゃ".to_owned()));
    v.push(("キュ".to_owned(), "きゅ".to_owned()));
    v.push(("キョ".to_owned(), "きょ".to_owned()));
    v.push(("シャ".to_owned(), "しゃ".to_owned()));
    v.push(("シュ".to_owned(), "しゅ".to_owned()));
    v.push(("ショ".to_owned(), "しょ".to_owned()));
    v.push(("チャ".to_owned(), "ちゃ".to_owned()));
    v.push(("チュ".to_owned(), "ちゅ".to_owned()));
    v.push(("チョ".to_owned(), "ちょ".to_owned()));
    proof {
        assert(pair_views(v@) =~= pair_views(v0) + kana_rows_e());
    }
}

fn push_rows_f(v: &mut Vec<(String, String)>)
    ensures
        pair_views(final(v)@) == pair_views(old(v)@) + kana_rows_f(),
{
    let ghost v0 = v@;
    v.push(("ニャ".to_owned(), "にゃ".to_owned()));
    v.push(("ニュ".to_owned(), "にゅ".to_owned()));
    v.push(("ニョ".to_owned(), "にょ".to_owned()));
    v.push(("ヒャ".to_owned(), "ひゃ".to_owned()));
    v.push(("ヒュ".to_owned(), "ひゅ".to_owned()));
    v.push(("ヒョ".to_owned(), "ひょ".to_owned()));
    v.push(("ミャ".to_owned(), "みゃ".to_owned()));
    v.push(("ミュ".to_owned(), "みゅ".to_owned()));
    v.push(("ミョ".to_owned(), "みょ".to_owned()));
    v.push(("リャ".to_owned(), "りゃ".to_owned()));
    v.push(("リュ".to_owned(), "りゅ".to_owned()));
    v.push(("リョ".to_owned(), "りょ".to_owned()));
    v.push(("ギャ".to_owned(), "ぎゃ".to_owned()));
    v.push(("ギュ".to_owned(), "ぎゅ".to_owned()));
    v.push(("ギョ".to_owned(), "ぎょ".to_owned()));
    v.push(("ジャ".to_owned(), "じゃ".to_owned()));
    proof {
        assert(pair_views(v@) =~= pair_views(v0) + kana_rows_f());
    }
}

fn push_rows_g(v: &mut Vec<(String, String)>)
    ensures
        pair_views(final(v)@) == pair_views(old(v)@) + kana_rows_g(),
{
    let ghost v0 = v@;
    v.push(("ジュ".to_owned(), "じゅ".to_owned()));
    v.push(("ジョ".to_owned(), "じょ".to_owned()));
    v.push(("ビャ".to_owned(), "びゃ".to_owned()));
    v.push(("ビュ".to_owned(), "びゅ".to_owned()));
    v.push(("ビョ".to_owned(), "びょ".to_owned()));
    v.push(("ピャ".to_owned(), "ぴゃ".to_owned()));
    v.push(("ピュ".to_owned(), "ぴゅ".to_owned()));
    v.push(("ピョ".to_owned(), "ぴょ".to_owned()));
    proof {
        assert(pair_views(v@) =~= pair_views(v0) + kana_rows_g());
    }
}

impl KanaTable {
    /// The table holds exactly the syllabary pairs.
    pub open spec fn wf(&self) -> bool {
        pair_views(self.pairs@) == kana_pairs()
    }

    /// Builds the table.
    pub fn new() -> (r: KanaTable)
        ensures
            r.wf(),
    {
        let mut v: Vec<(String, String)> = Vec::new();
        proof {
            assert(pair_views(v@) =~= Seq::<(Seq<char>, Seq<char>)>::empty());
        }
        push_rows_a(&mut v);
        push_rows_b(&mut v);
        push_rows_c(&mut v);
        push_rows_d(&mut v);
        push_rows_e(&mut v);
        push_rows_f(&mut v);
        push_rows_g(&mut v);
        proof {
            assert(pair_views(v@) =~= kana_pairs());
        }
        KanaTable { pairs: v }
    }

    /// Whether `c` appears on either side of the table as a single-character
    /// syllable.
    pub fn contains_char(&self, c: char) -> (r: bool)
        requires
            self.wf(),
        ensures
            r == is_kana_char(c),
    {
        let n = self.pairs.len();
        proof {
            assert(pair_views(self.pairs@).len() == self.pairs@.len());
        }
        let mut i: usize = 0;
        while i < n
            invariant
                self.wf(),
                n == self.pairs@.len(),
                n == kana_pairs().len(),
                0 <= i <= n,
                forall|j: int|
                    0 <= j < i ==> !((#[trigger] kana_pairs()[j]).0 == seq![c] || kana_pairs()[j].1
                        == seq![c]),
            decreases n - i,
        {
            proof {
                assert(pair_views(self.pairs@)[i as int] == kana_pairs()[i as int]);
            }
            if single_char_eq(self.pairs[i].0.as_str(), c) || single_char_eq(
                self.pairs[i].1.as_str(),
                c,
            ) {
                proof {
                    assert(0 <= i < kana_pairs().len() && ((kana_pairs()[i as int]).0 == seq![c]
                        || kana_pairs()[i as int].1 == seq![c]));
                }
                return true;
            }
            i += 1;
        }
        false
    }

    /// Converts one katakana syllable to hiragana.
    pub fn to_hiragana(&self, katakana: &str) -> (r: Option<String>)
        requires
            self.wf(),
        ensures
            match r {
                Option::Some(h) => assoc_katakana(kana_pairs(), katakana@) == Option::Some(h@),
                Option::None => assoc_katakana(kana_pairs(), katakana@) is None,
            },
    {
        let n = self.pairs.len();
        proof {
            assert(pair_views(self.pairs@).len() == self.pairs@.len());
            assert(kana_pairs().skip(0) =~= kana_pairs());
        }
        let mut i: usize = 0;
        while i < n
            invariant
                self.wf(),
                n == self.pairs@.len(),
                n == kana_pairs().len(),
                0 <= i <= n,
                assoc_katakana(kana_pairs(), katakana@) == assoc_katakana(
                    kana_pairs().skip(i as int),
                    katakana@,
                ),
            decreases n - i,
        {
            proof {
                assert(pair_views(self.pairs@)[i as int] == kana_pairs()[i as int]);
                assert(kana_pairs().skip(i as int).first() == kana_pairs()[i as int]);
                assert(kana_pairs().skip(i as int).drop_first() =~= kana_pairs().skip(i + 1));
            }
            if str_eq(self.pairs[i].0.as_str(), katakana) {
                return Option::Some(self.pairs[i].1.clone());
            }
            i += 1;
        }
        proof {
            assert(kana_pairs().skip(n as int).len() == 0);
        }
        Option::None
    }

    /// Converts one hiragana syllable to katakana.
    pub fn to_katakana(&self, hiragana: &str) -> (r: Option<String>)
        requires
            self.wf(),
        ensures
            match r {
                Option::Some(k) => assoc_hiragana(kana_pairs(), hiragana@) == Option::Some(k@),
                Option::None => assoc_hiragana(kana_pairs(), hiragana@) is None,
            },
    {
        let n = self.pairs.len();
        proof {
            assert(pair_views(self.pairs@).len() == self.pairs@.len());
            assert(kana_pairs().skip(0) =~= kana_pairs());
        }
        let mut i: usize = 0;
        while i < n
            invariant
                self.wf(),
                n == self.pairs@.len(),
                n == kana_pairs().len(),
                0 <= i <= n,
                assoc_hiragana(kana_pairs(), hiragana@) == assoc_hiragana(
                    kana_pairs().skip(i as int),
                    hiragana@,
                ),
            decreases n - i,
        {
            proof {
                assert(pair_views(self.pairs@)[i as int] == kana_pairs()[i as int]);
                assert(kana_pairs().skip(i as int).first() == kana_pairs()[i as int]);
                assert(kana_pairs().skip(i as int).drop_first() =~= kana_pairs().skip(i + 1));
            }
            if str_eq(self.pairs[i].1.as_str(), hiragana) {
                return Option::Some(self.pairs[i].0.clone());
            }
            i += 1;
        }
        proof {
            assert(kana_pairs().skip(n as int).len() == 0);
        }
        Option::None
    }
}

/// Whether `s` is exactly the one character `c`.
fn single_char_eq(s: &str, c: char) -> (r: bool)
    ensures
        r == (s@ == seq![c]),
{
    let n = s.unicode_len();
    if n != 1 {
        proof {
            assert(s@ != seq![c]) by {
                assert(s@.len() != seq![c].len());
            }
        }
        return false;
    }
    let r = s.get_char(0) == c;
    proof {
        if r {
            assert(s@ =~= seq![c]);
        } else {
            assert(s@ != seq![c]) by {
                assert(s@[0] != seq![c][0]);
            }
        }
    }
    r
}

} // verus!
