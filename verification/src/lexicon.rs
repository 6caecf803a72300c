//! What the signs say.
//!
//! Every sign carries one entry from the vocabulary — a real word, in real
//! characters, of the kind actually lit up somewhere in Tokyo tonight: drink,
//! food, baths, pachinko, place names, the phrases a shopfront uses to say it
//! is open, and the vocabulary of 酉の市 itself.
//!
//! This module is the single source of truth for both halves of the visual:
//! the shader indexes glyphs by their position in [`glyphs`], and the atlas
//! baker draws the atlas in exactly that order.

use vstd::prelude::*;

use crate::sim::ceil_div;
use crate::text::chars_of;

verus! {

/// One sign's worth of text.
pub struct Word {
    /// What the sign says. One to [`MAX_CHARS`] characters.
    pub text: &'static str,
    /// The reading, and what it means.
    pub gloss: &'static str,
    /// How many draw slots this takes, and so how often it comes up.
    pub weight: u8,
}

/// A word of weight one.
pub fn word(text: &'static str, gloss: &'static str) -> (w: Word)
    ensures
        w == (Word { text, gloss, weight: 1 }),
{
    Word { text, gloss, weight: 1 }
}

/// The longest sign the layout draws.
pub const MAX_CHARS: usize = 4;

/// The long vowel mark: the one character whose shape depends on how the sign
/// is set, so the shader turns it a quarter turn in vertical text.
pub const CHOONPU: char = 'ー';

/// Side of one atlas cell, in pixels.
pub const ATLAS_CELL: u32 = 128;

/// Cells across the atlas. Rows follow from the vocabulary size.
pub const ATLAS_COLS: u32 = 12;

/// Room in the shader's uniform for the weight-expanded vocabulary.
pub const MAX_SLOTS: usize = 128;

/// The vocabulary. 酉の市 is the one thing here the night is about, so it
/// carries the only weight above one.
pub open spec fn vocabulary() -> Seq<Word> {
    seq![
        Word { text: "酉の市", gloss: "Tori no Ichi — the Festival of the Rooster", weight: 4 },
        Word { text: "熊手", gloss: "kumade — the lucky rake sold at the festival", weight: 1 },
        Word { text: "開運", gloss: "kaiun — opening of fortune", weight: 1 },
        Word { text: "商売繁盛", gloss: "shobai hanjo — thriving trade", weight: 1 },
        Word { text: "大吉", gloss: "daikichi — great luck", weight: 1 },
        Word { text: "祭", gloss: "matsuri — festival", weight: 1 },
        Word { text: "居酒屋", gloss: "izakaya", weight: 1 },
        Word { text: "酒", gloss: "sake", weight: 1 },
        Word { text: "大衆酒場", gloss: "taishu sakaba — a tavern for everyone", weight: 1 },
        Word { text: "生ビール", gloss: "nama biiru — draught beer", weight: 1 },
        Word { text: "焼酎", gloss: "shochu", weight: 1 },
        Word { text: "立呑み", gloss: "tachinomi — standing bar", weight: 1 },
        Word { text: "バー", gloss: "baa — bar", weight: 1 },
        Word { text: "スナック", gloss: "sunakku — hostess bar", weight: 1 },
        Word { text: "ラーメン", gloss: "raamen", weight: 1 },
        Word { text: "中華そば", gloss: "chuka soba — the older name for ramen", weight: 1 },
        Word { text: "餃子", gloss: "gyoza", weight: 1 },
        Word { text: "焼鳥", gloss: "yakitori", weight: 1 },
        Word { text: "焼肉", gloss: "yakiniku", weight: 1 },
        Word { text: "寿司", gloss: "sushi", weight: 1 },
        Word { text: "天ぷら", gloss: "tempura", weight: 1 },
        Word { text: "とんかつ", gloss: "tonkatsu", weight: 1 },
        Word { text: "うどん", gloss: "udon", weight: 1 },
        Word { text: "そば", gloss: "soba", weight: 1 },
        Word { text: "おでん", gloss: "oden", weight: 1 },
        Word { text: "カレー", gloss: "karee — curry", weight: 1 },
        Word { text: "定食", gloss: "teishoku — set meal", weight: 1 },
        Word { text: "丼", gloss: "donburi — a rice bowl", weight: 1 },
        Word { text: "麺", gloss: "men — noodles", weight: 1 },
        Word { text: "大盛", gloss: "omori — large portion", weight: 1 },
        Word { text: "氷", gloss: "kori — ice, the shaved-ice sign", weight: 1 },
        Word { text: "喫茶", gloss: "kissa — coffee house", weight: 1 },
        Word { text: "珈琲", gloss: "kohii — coffee, in the old characters", weight: 1 },
        Word { text: "コーヒー", gloss: "kohii — coffee", weight: 1 },
        Word { text: "カラオケ", gloss: "karaoke", weight: 1 },
        Word { text: "パチンコ", gloss: "pachinko", weight: 1 },
        Word { text: "サウナ", gloss: "sauna", weight: 1 },
        Word { text: "ホテル", gloss: "hoteru — hotel", weight: 1 },
        Word { text: "銭湯", gloss: "sento — public bath", weight: 1 },
        Word { text: "ゆ", gloss: "yu — hot water, the character on a bathhouse curtain", weight: 1 },
        Word { text: "温泉", gloss: "onsen — hot spring", weight: 1 },
        Word { text: "質屋", gloss: "shichiya — pawnshop", weight: 1 },
        Word { text: "薬", gloss: "kusuri — medicine, a pharmacy", weight: 1 },
        Word { text: "電気", gloss: "denki — electrical goods", weight: 1 },
        Word { text: "たばこ", gloss: "tabako — tobacco", weight: 1 },
        Word { text: "横丁", gloss: "yokocho — the alley", weight: 1 },
        Word { text: "営業中", gloss: "eigyochu — open", weight: 1 },
        Word { text: "年中無休", gloss: "nenju mukyu — open every day of the year", weight: 1 },
        Word { text: "深夜営業", gloss: "shinya eigyo — open late", weight: 1 },
        Word { text: "一番", gloss: "ichiban — the best", weight: 1 },
        Word { text: "元祖", gloss: "ganso — the original", weight: 1 },
        Word { text: "東京", gloss: "Tokyo", weight: 1 },
        Word { text: "新宿", gloss: "Shinjuku", weight: 1 },
        Word { text: "渋谷", gloss: "Shibuya", weight: 1 },
        Word { text: "上野", gloss: "Ueno", weight: 1 },
        Word { text: "浅草", gloss: "Asakusa", weight: 1 },
        Word { text: "銀座", gloss: "Ginza", weight: 1 },
        Word { text: "歌舞伎町", gloss: "Kabukicho", weight: 1 }
    ]
}

/// The vocabulary, in order.
pub fn words() -> (r: Vec<Word>)
    ensures
        r@ == vocabulary(),
{
    let r = vec![
        Word { text: "酉の市", gloss: "Tori no Ichi — the Festival of the Rooster", weight: 4 },
        word("熊手", "kumade — the lucky rake sold at the festival"),
        word("開運", "kaiun — opening of fortune"),
        word("商売繁盛", "shobai hanjo — thriving trade"),
        word("大吉", "daikichi — great luck"),
        word("祭", "matsuri — festival"),
        word("居酒屋", "izakaya"),
        word("酒", "sake"),
        word("大衆酒場", "taishu sakaba — a tavern for everyone"),
        word("生ビール", "nama biiru — draught beer"),
        word("焼酎", "shochu"),
        word("立呑み", "tachinomi — standing bar"),
        word("バー", "baa — bar"),
        word("スナック", "sunakku — hostess bar"),
        word("ラーメン", "raamen"),
        word("中華そば", "chuka soba — the older name for ramen"),
        word("餃子", "gyoza"),
        word("焼鳥", "yakitori"),
        word("焼肉", "yakiniku"),
        word("寿司", "sushi"),
        word("天ぷら", "tempura"),
        word("とんかつ", "tonkatsu"),
        word("うどん", "udon"),
        word("そば", "soba"),
        word("おでん", "oden"),
        word("カレー", "karee — curry"),
        word("定食", "teishoku — set meal"),
        word("丼", "donburi — a rice bowl"),
        word("麺", "men — noodles"),
        word("大盛", "omori — large portion"),
        word("氷", "kori — ice, the shaved-ice sign"),
        word("喫茶", "kissa — coffee house"),
        word("珈琲", "kohii — coffee, in the old characters"),
        word("コーヒー", "kohii — coffee"),
        word("カラオケ", "karaoke"),
        word("パチンコ", "pachinko"),
        word("サウナ", "sauna"),
        word("ホテル", "hoteru — hotel"),
        word("銭湯", "sento — public bath"),
        word("ゆ", "yu — hot water, the character on a bathhouse curtain"),
        word("温泉", "onsen — hot spring"),
        word("質屋", "shichiya — pawnshop"),
        word("薬", "kusuri — medicine, a pharmacy"),
        word("電気", "denki — electrical goods"),
        word("たばこ", "tabako — tobacco"),
        word("横丁", "yokocho — the alley"),
        word("営業中", "eigyochu — open"),
        word("年中無休", "nenju mukyu — open every day of the year"),
        word("深夜営業", "shinya eigyo — open late"),
        word("一番", "ichiban — the best"),
        word("元祖", "ganso — the original"),
        word("東京", "Tokyo"),
        word("新宿", "Shinjuku"),
        word("渋谷", "Shibuya"),
        word("上野", "Ueno"),
        word("浅草", "Asakusa"),
        word("銀座", "Ginza"),
        word("歌舞伎町", "Kabukicho")
    ];
    assert(r@ =~= vocabulary());
    r
}

/// Every character of every word in `ws`, in order.
pub open spec fn all_chars(ws: Seq<Word>) -> Seq<char>
    decreases ws.len(),
{
    if ws.len() == 0 {
        seq![]
    } else {
        all_chars(ws.drop_last()) + ws.last().text@
    }
}

/// The characters of `s` in first-appearance order, each once.
pub open spec fn first_appearance(s: Seq<char>) -> Seq<char>
    decreases s.len(),
{
    if s.len() == 0 {
        seq![]
    } else {
        let p = first_appearance(s.drop_last());
        if p.contains(s.last()) {
            p
        } else {
            p.push(s.last())
        }
    }
}

/// The atlas layout: cell `n` holds character `n`.
pub open spec fn glyph_table() -> Seq<char> {
    first_appearance(all_chars(vocabulary()))
}

/// Draw slots a word takes: its weight, and at least one.
pub open spec fn slots_of(w: Word) -> int {
    if w.weight == 0 {
        1
    } else {
        w.weight as int
    }
}

/// Draw slots a run of words takes.
pub open spec fn total_slots(ws: Seq<Word>) -> int
    decreases ws.len(),
{
    if ws.len() == 0 {
        0
    } else {
        total_slots(ws.drop_last()) + slots_of(ws.last())
    }
}

proof fn lemma_word_lengths()
    ensures
        vocabulary().len() == 58,
        vocabulary()[0].text@.len() == 3,
        vocabulary()[1].text@.len() == 2,
        vocabulary()[2].text@.len() == 2,
        vocabulary()[3].text@.len() == 4,
        vocabulary()[4].text@.len() == 2,
        vocabulary()[5].text@.len() == 1,
        vocabulary()[6].text@.len() == 3,
        vocabulary()[7].text@.len() == 1,
        vocabulary()[8].text@.len() == 4,
        vocabulary()[9].text@.len() == 4,
        vocabulary()[10].text@.len() == 2,
        vocabulary()[11].text@.len() == 3,
        vocabulary()[12].text@.len() == 2,
        vocabulary()[13].text@.len() == 4,
        vocabulary()[14].text@.len() == 4,
        vocabulary()[15].text@.len() == 4,
        vocabulary()[16].text@.len() == 2,
        vocabulary()[17].text@.len() == 2,
        vocabulary()[18].text@.len() == 2,
        vocabulary()[19].text@.len() == 2,
        vocabulary()[20].text@.len() == 3,
        vocabulary()[21].text@.len() == 4,
        vocabulary()[22].text@.len() == 3,
        vocabulary()[23].text@.len() == 2,
        vocabulary()[24].text@.len() == 3,
        vocabulary()[25].text@.len() == 3,
        vocabulary()[26].text@.len() == 2,
        vocabulary()[27].text@.len() == 1,
        vocabulary()[28].text@.len() == 1,
        vocabulary()[29].text@.len() == 2,
        vocabulary()[30].text@.len() == 1,
        vocabulary()[31].text@.len() == 2,
        vocabulary()[32].text@.len() == 2,
        vocabulary()[33].text@.len() == 4,
        vocabulary()[34].text@.len() == 4,
        vocabulary()[35].text@.len() == 4,
        vocabulary()[36].text@.len() == 3,
        vocabulary()[37].text@.len() == 3,
        vocabulary()[38].text@.len() == 2,
        vocabulary()[39].text@.len() == 1,
        vocabulary()[40].text@.len() == 2,
        vocabulary()[41].text@.len() == 2,
        vocabulary()[42].text@.len() == 1,
        vocabulary()[43].text@.len() == 2,
        vocabulary()[44].text@.len() == 3,
        vocabulary()[45].text@.len() == 2,
        vocabulary()[46].text@.len() == 3,
        vocabulary()[47].text@.len() == 4,
        vocabulary()[48].text@.len() == 4,
        vocabulary()[49].text@.len() == 2,
        vocabulary()[50].text@.len() == 2,
        vocabulary()[51].text@.len() == 2,
        vocabulary()[52].text@.len() == 2,
        vocabulary()[53].text@.len() == 2,
        vocabulary()[54].text@.len() == 2,
        vocabulary()[55].text@.len() == 2,
        vocabulary()[56].text@.len() == 2,
        vocabulary()[57].text@.len() == 4,
{
    reveal_strlit("酉の市");
    reveal_strlit("熊手");
    reveal_strlit("開運");
    reveal_strlit("商売繁盛");
    reveal_strlit("大吉");
    reveal_strlit("祭");
    reveal_strlit("居酒屋");
    reveal_strlit("酒");
    reveal_strlit("大衆酒場");
    reveal_strlit("生ビール");
    reveal_strlit("焼酎");
    reveal_strlit("立呑み");
    reveal_strlit("バー");
    reveal_strlit("スナック");
    reveal_strlit("ラーメン");
    reveal_strlit("中華そば");
    reveal_strlit("餃子");
    reveal_strlit("焼鳥");
    reveal_strlit("焼肉");
    reveal_strlit("寿司");
    reveal_strlit("天ぷら");
    reveal_strlit("とんかつ");
    reveal_strlit("うどん");
    reveal_strlit("そば");
    reveal_strlit("おでん");
    reveal_strlit("カレー");
    reveal_strlit("定食");
    reveal_strlit("丼");
    reveal_strlit("麺");
    reveal_strlit("大盛");
    reveal_strlit("氷");
    reveal_strlit("喫茶");
    reveal_strlit("珈琲");
    reveal_strlit("コーヒー");
    reveal_strlit("カラオケ");
    reveal_strlit("パチンコ");
    reveal_strlit("サウナ");
    reveal_strlit("ホテル");
    reveal_strlit("銭湯");
    reveal_strlit("ゆ");
    reveal_strlit("温泉");
    reveal_strlit("質屋");
    reveal_strlit("薬");
    reveal_strlit("電気");
    reveal_strlit("たばこ");
    reveal_strlit("横丁");
    reveal_strlit("営業中");
    reveal_strlit("年中無休");
    reveal_strlit("深夜営業");
    reveal_strlit("一番");
    reveal_strlit("元祖");
    reveal_strlit("東京");
    reveal_strlit("新宿");
    reveal_strlit("渋谷");
    reveal_strlit("上野");
    reveal_strlit("浅草");
    reveal_strlit("銀座");
    reveal_strlit("歌舞伎町");
}

proof fn lemma_prefix_step(ws: Seq<Word>, k: int)
    requires
        0 <= k < ws.len(),
    ensures
        all_chars(ws.take(k + 1)) == all_chars(ws.take(k)) + ws[k].text@,
        total_slots(ws.take(k + 1)) == total_slots(ws.take(k)) + slots_of(ws[k]),
{
    assert(ws.take(k + 1).drop_last() =~= ws.take(k));
}

/// The shape of the vocabulary: every word is one to [`MAX_CHARS`]
/// characters, there are 146 characters in all, and the weights expand to 61
/// draw slots.
#[verifier::rlimit(50)]
pub proof fn lemma_vocabulary_shape()
    ensures
        vocabulary().len() == 58,
        forall|i: int|
            0 <= i < vocabulary().len() ==> 1 <= (#[trigger] vocabulary()[i]).text@.len()
                <= MAX_CHARS,
        all_chars(vocabulary()).len() == 146,
        total_slots(vocabulary()) == 61,
{
    lemma_word_lengths();
    let v = vocabulary();
    assert(v.take(0) =~= Seq::<Word>::empty());
    lemma_prefix_step(v, 0);
    assert(all_chars(v.take(1)).len() == 3 && total_slots(v.take(1)) == 4);
    lemma_prefix_step(v, 1);
    assert(all_chars(v.take(2)).len() == 5 && total_slots(v.take(2)) == 5);
    lemma_prefix_step(v, 2);
    assert(all_chars(v.take(3)).len() == 7 && total_slots(v.take(3)) == 6);
    lemma_prefix_step(v, 3);
    assert(all_chars(v.take(4)).len() == 11 && total_slots(v.take(4)) == 7);
    lemma_prefix_step(v, 4);
    assert(all_chars(v.take(5)).len() == 13 && total_slots(v.take(5)) == 8);
    lemma_prefix_step(v, 5);
    assert(all_chars(v.take(6)).len() == 14 && total_slots(v.take(6)) == 9);
    lemma_prefix_step(v, 6);
    assert(all_chars(v.take(7)).len() == 17 && total_slots(v.take(7)) == 10);
    lemma_prefix_step(v, 7);
    assert(all_chars(v.take(8)).len() == 18 && total_slots(v.take(8)) == 11);
    lemma_prefix_step(v, 8);
    assert(all_chars(v.take(9)).len() == 22 && total_slots(v.take(9)) == 12);
    lemma_prefix_step(v, 9);
    assert(all_chars(v.take(10)).len() == 26 && total_slots(v.take(10)) == 13);
    lemma_prefix_step(v, 10);
    assert(all_chars(v.take(11)).len() == 28 && total_slots(v.take(11)) == 14);
    lemma_prefix_step(v, 11);
    assert(all_chars(v.take(12)).len() == 31 && total_slots(v.take(12)) == 15);
    lemma_prefix_step(v, 12);
    assert(all_chars(v.take(13)).len() == 33 && total_slots(v.take(13)) == 16);
    lemma_prefix_step(v, 13);
    assert(all_chars(v.take(14)).len() == 37 && total_slots(v.take(14)) == 17);
    lemma_prefix_step(v, 14);
    assert(all_chars(v.take(15)).len() == 41 && total_slots(v.take(15)) == 18);
    lemma_prefix_step(v, 15);
    assert(all_chars(v.take(16)).len() == 45 && total_slots(v.take(16)) == 19);
    lemma_prefix_step(v, 16);
    assert(all_chars(v.take(17)).len() == 47 && total_slots(v.take(17)) == 20);
    lemma_prefix_step(v, 17);
    assert(all_chars(v.take(18)).len() == 49 && total_slots(v.take(18)) == 21);
    lemma_prefix_step(v, 18);
    assert(all_chars(v.take(19)).len() == 51 && total_slots(v.take(19)) == 22);
    lemma_prefix_step(v, 19);
    assert(all_chars(v.take(20)).len() == 53 && total_slots(v.take(20)) == 23);
    lemma_prefix_step(v, 20);
    assert(all_chars(v.take(21)).len() == 56 && total_slots(v.take(21)) == 24);
    lemma_prefix_step(v, 21);
    assert(all_chars(v.take(22)).len() == 60 && total_slots(v.take(22)) == 25);
    lemma_prefix_step(v, 22);
    assert(all_chars(v.take(23)).len() == 63 && total_slots(v.take(23)) == 26);
    lemma_prefix_step(v, 23);
    assert(all_chars(v.take(24)).len() == 65 && total_slots(v.take(24)) == 27);
    lemma_prefix_step(v, 24);
    assert(all_chars(v.take(25)).len() == 68 && total_slots(v.take(25)) == 28);
    lemma_prefix_step(v, 25);
    assert(all_chars(v.take(26)).len() == 71 && total_slots(v.take(26)) == 29);
    lemma_prefix_step(v, 26);
    assert(all_chars(v.take(27)).len() == 73 && total_slots(v.take(27)) == 30);
    lemma_prefix_step(v, 27);
    assert(all_chars(v.take(28)).len() == 74 && total_slots(v.take(28)) == 31);
    lemma_prefix_step(v, 28);
    assert(all_chars(v.take(29)).len() == 75 && total_slots(v.take(29)) == 32);
    lemma_prefix_step(v, 29);
    assert(all_chars(v.take(30)).len() == 77 && total_slots(v.take(30)) == 33);
    lemma_prefix_step(v, 30);
    assert(all_chars(v.take(31)).len() == 78 && total_slots(v.take(31)) == 34);
    lemma_prefix_step(v, 31);
    assert(all_chars(v.take(32)).len() == 80 && total_slots(v.take(32)) == 35);
    lemma_prefix_step(v, 32);
    assert(all_chars(v.take(33)).len() == 82 && total_slots(v.take(33)) == 36);
    lemma_prefix_step(v, 33);
    assert(all_chars(v.take(34)).len() == 86 && total_slots(v.take(34)) == 37);
    lemma_prefix_step(v, 34);
    assert(all_chars(v.take(35)).len() == 90 && total_slots(v.take(35)) == 38);
    lemma_prefix_step(v, 35);
    assert(all_chars(v.take(36)).len() == 94 && total_slots(v.take(36)) == 39);
    lemma_prefix_step(v, 36);
    assert(all_chars(v.take(37)).len() == 97 && total_slots(v.take(37)) == 40);
    lemma_prefix_step(v, 37);
    assert(all_chars(v.take(38)).len() == 100 && total_slots(v.take(38)) == 41);
    lemma_prefix_step(v, 38);
    assert(all_chars(v.take(39)).len() == 102 && total_slots(v.take(39)) == 42);
    lemma_prefix_step(v, 39);
    assert(all_chars(v.take(40)).len() == 103 && total_slots(v.take(40)) == 43);
    lemma_prefix_step(v, 40);
    assert(all_chars(v.take(41)).len() == 105 && total_slots(v.take(41)) == 44);
    lemma_prefix_step(v, 41);
    assert(all_chars(v.take(42)).len() == 107 && total_slots(v.take(42)) == 45);
    lemma_prefix_step(v, 42);
    assert(all_chars(v.take(43)).len() == 108 && total_slots(v.take(43)) == 46);
    lemma_prefix_step(v, 43);
    assert(all_chars(v.take(44)).len() == 110 && total_slots(v.take(44)) == 47);
    lemma_prefix_step(v, 44);
    assert(all_chars(v.take(45)).len() == 113 && total_slots(v.take(45)) == 48);
    lemma_prefix_step(v, 45);
    assert(all_chars(v.take(46)).len() == 115 && total_slots(v.take(46)) == 49);
    lemma_prefix_step(v, 46);
    assert(all_chars(v.take(47)).len() == 118 && total_slots(v.take(47)) == 50);
    lemma_prefix_step(v, 47);
    assert(all_chars(v.take(48)).len() == 122 && total_slots(v.take(48)) == 51);
    lemma_prefix_step(v, 48);
    assert(all_chars(v.take(49)).len() == 126 && total_slots(v.take(49)) == 52);
    lemma_prefix_step(v, 49);
    assert(all_chars(v.take(50)).len() == 128 && total_slots(v.take(50)) == 53);
    lemma_prefix_step(v, 50);
    assert(all_chars(v.take(51)).len() == 130 && total_slots(v.take(51)) == 54);
    lemma_prefix_step(v, 51);
    assert(all_chars(v.take(52)).len() == 132 && total_slots(v.take(52)) == 55);
    lemma_prefix_step(v, 52);
    assert(all_chars(v.take(53)).len() == 134 && total_slots(v.take(53)) == 56);
    lemma_prefix_step(v, 53);
    assert(all_chars(v.take(54)).len() == 136 && total_slots(v.take(54)) == 57);
    lemma_prefix_step(v, 54);
    assert(all_chars(v.take(55)).len() == 138 && total_slots(v.take(55)) == 58);
    lemma_prefix_step(v, 55);
    assert(all_chars(v.take(56)).len() == 140 && total_slots(v.take(56)) == 59);
    lemma_prefix_step(v, 56);
    assert(all_chars(v.take(57)).len() == 142 && total_slots(v.take(57)) == 60);
    lemma_prefix_step(v, 57);
    assert(all_chars(v.take(58)).len() == 146 && total_slots(v.take(58)) == 61);
    assert(v.take(58) =~= v);
}

proof fn lemma_push_contains(t: Seq<char>, x: char)
    ensures
        forall|c: char| t.push(x).contains(c) <==> (t.contains(c) || c == x),
{
    assert forall|c: char| t.push(x).contains(c) <==> (t.contains(c) || c == x) by {
        if t.push(x).contains(c) {
            let k = choose|k: int| 0 <= k < t.len() + 1 && t.push(x)[k] == c;
            if k < t.len() {
                assert(t[k] == c);
            }
        }
        if t.contains(c) {
            let k = choose|k: int| 0 <= k < t.len() && t[k] == c;
            assert(t.push(x)[k] == c);
        }
        if c == x {
            assert(t.push(x)[t.len() as int] == c);
        }
    }
}

/// Facts about [`first_appearance`]: it holds exactly the characters of `s`,
/// each once, and is no longer than `s`.
pub proof fn lemma_first_appearance(s: Seq<char>)
    ensures
        forall|c: char| first_appearance(s).contains(c) <==> s.contains(c),
        first_appearance(s).no_duplicates(),
        first_appearance(s).len() <= s.len(),
    decreases s.len(),
{
    if s.len() == 0 {
        assert forall|c: char| first_appearance(s).contains(c) <==> s.contains(c) by {
            assert(first_appearance(s) =~= Seq::<char>::empty());
        }
    } else {
        let q = s.drop_last();
        let x = s.last();
        let p = first_appearance(q);
        lemma_first_appearance(q);
        assert(s =~= q.push(x));
        lemma_push_contains(q, x);
        lemma_push_contains(p, x);
        assert forall|c: char| first_appearance(s).contains(c) <==> s.contains(c) by {
            assert(s.contains(c) == q.push(x).contains(c));
            assert(p.contains(c) == q.contains(c));
            assert(first_appearance(s) == (if p.contains(x) {
                p
            } else {
                p.push(x)
            }));
            if p.contains(x) {
                assert(q.contains(x));
            }
        }
        if !p.contains(x) {
            assert(p.push(x).no_duplicates()) by {
                assert forall|a: int, b: int|
                    0 <= a < p.len() + 1 && 0 <= b < p.len() + 1 && a != b implies p.push(x)[a]
                    != p.push(x)[b] by {
                    if a < p.len() && b < p.len() {
                    } else if a < p.len() {
                        assert(p[a] != x);
                    } else {
                        assert(p[b] != x);
                    }
                }
            }
        }
    }
}

/// Index of `c` in a sequence that holds it once.
pub open spec fn position_of(t: Seq<char>, c: char) -> int {
    choose|i: int| 0 <= i < t.len() && t[i] == c
}

/// Whether `v` holds `c`.
fn holds_char(v: &Vec<char>, c: char) -> (b: bool)
    ensures
        b == v@.contains(c),
{
    let mut k: usize = 0;
    while k < v.len()
        invariant
            k <= v.len(),
            forall|j: int| 0 <= j < k ==> v@[j] != c,
        decreases v.len() - k,
    {
        if v[k] == c {
            assert(v@[k as int] == c);
            return true;
        }
        k = k + 1;
    }
    false
}

/// Every character used by the vocabulary, in first-appearance order, each
/// once. This ordering is the atlas layout.
pub fn glyphs() -> (out: Vec<char>)
    ensures
        out@ == glyph_table(),
{
    let ws = words();
    let mut out: Vec<char> = Vec::new();
    let mut i: usize = 0;
    assert(ws@.take(0) =~= Seq::<Word>::empty());
    while i < ws.len()
        invariant
            i <= ws@.len(),
            ws@ == vocabulary(),
            out@ == first_appearance(all_chars(ws@.take(i as int))),
        decreases ws.len() - i,
    {
        let cs = chars_of(ws[i].text);
        let ghost prefix = all_chars(ws@.take(i as int));
        let mut j: usize = 0;
        assert(prefix + cs@.take(0) =~= prefix);
        while j < cs.len()
            invariant
                j <= cs@.len(),
                out@ == first_appearance(prefix + cs@.take(j as int)),
            decreases cs.len() - j,
        {
            let ch = cs[j];
            assert((prefix + cs@.take(j + 1)).drop_last() =~= prefix + cs@.take(j as int));
            assert((prefix + cs@.take(j + 1)).last() == ch);
            if !holds_char(&out, ch) {
                out.push(ch);
            }
            j = j + 1;
        }
        proof {
            lemma_prefix_step(ws@, i as int);
            assert(cs@.take(cs@.len() as int) =~= cs@);
        }
        i = i + 1;
    }
    assert(ws@.take(ws@.len() as int) =~= ws@);
    out
}

/// Index of `ch` in the atlas, or `None` if no word uses it.
pub fn glyph_index(ch: char) -> (r: Option<usize>)
    ensures
        match r {
            Some(i) => i < glyph_table().len() && glyph_table()[i as int] == ch && i
                == position_of(glyph_table(), ch),
            None => !glyph_table().contains(ch),
        },
{
    let g = glyphs();
    proof {
        lemma_first_appearance(all_chars(vocabulary()));
    }
    let mut k: usize = 0;
    while k < g.len()
        invariant
            k <= g@.len(),
            g@ == glyph_table(),
            g@.no_duplicates(),
            forall|j: int| 0 <= j < k ==> g@[j] != ch,
        decreases g.len() - k,
    {
        if g[k] == ch {
            proof {
                let p = position_of(g@, ch);
                assert(0 <= p < g@.len() && g@[p] == ch);
            }
            return Some(k);
        }
        k = k + 1;
    }
    None
}

/// The glyphs are the vocabulary's characters, each once: no more than the 146
/// characters the vocabulary is written in.
pub proof fn lemma_glyph_count()
    ensures
        glyph_table().len() <= 146,
        glyph_table().no_duplicates(),
        forall|c: char| glyph_table().contains(c) <==> all_chars(vocabulary()).contains(c),
{
    lemma_vocabulary_shape();
    lemma_first_appearance(all_chars(vocabulary()));
}

/// Rows the atlas needs.
pub fn atlas_rows() -> (r: u32)
    ensures
        r == ceil_div(glyph_table().len() as int, ATLAS_COLS as int),
        r * ATLAS_COLS >= glyph_table().len(),
        r > 0 ==> (r - 1) * ATLAS_COLS < glyph_table().len(),
{
    let n = glyphs().len();
    proof {
        lemma_glyph_count();
    }
    let q = n / 12;
    let rows = if n % 12 == 0 {
        q
    } else {
        q + 1
    };
    proof {
        let ni = n as int;
        assert(ni == (ni / 12) * 12 + ni % 12);
    }
    rows as u32
}

/// `(width, height)` of the atlas image, in pixels.
pub fn atlas_size() -> (r: (u32, u32))
    ensures
        r.0 == ATLAS_COLS * ATLAS_CELL,
        r.1 == ceil_div(glyph_table().len() as int, ATLAS_COLS as int) * ATLAS_CELL,
{
    let rows = atlas_rows();
    proof {
        lemma_glyph_count();
    }
    (ATLAS_COLS * ATLAS_CELL, rows * ATLAS_CELL)
}

/// One draw-table row for a word: the atlas index of each character, and
/// `-1` for the unused tail.
pub open spec fn slot_row(w: Word) -> Seq<i32> {
    Seq::new(
        MAX_CHARS as nat,
        |k: int|
            if k < w.text@.len() {
                position_of(glyph_table(), w.text@[k]) as i32
            } else {
                -1i32
            },
    )
}

/// The draw table for a run of words: each word's row, as many times as its
/// weight asks, in vocabulary order.
pub open spec fn expand(ws: Seq<Word>) -> Seq<Seq<i32>>
    decreases ws.len(),
{
    if ws.len() == 0 {
        seq![]
    } else {
        expand(ws.drop_last()) + Seq::new(slots_of(ws.last()) as nat, |_k: int| slot_row(ws.last()))
    }
}

proof fn lemma_expand_len(ws: Seq<Word>)
    ensures
        expand(ws).len() == total_slots(ws),
    decreases ws.len(),
{
    if ws.len() > 0 {
        lemma_expand_len(ws.drop_last());
    }
}

proof fn lemma_all_chars_holds(ws: Seq<Word>, i: int, k: int)
    requires
        0 <= i < ws.len(),
        0 <= k < ws[i].text@.len(),
    ensures
        all_chars(ws).contains(ws[i].text@[k]),
    decreases ws.len(),
{
    let a = all_chars(ws.drop_last());
    let t = ws.last().text@;
    if i == ws.len() - 1 {
        assert((a + t)[a.len() + k] == t[k]);
    } else {
        lemma_all_chars_holds(ws.drop_last(), i, k);
        let m = choose|m: int| 0 <= m < a.len() && a[m] == ws[i].text@[k];
        assert((a + t)[m] == a[m]);
    }
}

/// Where `ch` sits in a table that holds it once.
fn find_glyph(g: &Vec<char>, ch: char) -> (r: usize)
    requires
        g@.contains(ch),
        g@.no_duplicates(),
    ensures
        r < g@.len(),
        g@[r as int] == ch,
        r == position_of(g@, ch),
{
    let mut k: usize = 0;
    while k < g.len()
        invariant
            k <= g@.len(),
            g@.contains(ch),
            g@.no_duplicates(),
            forall|j: int| 0 <= j < k ==> g@[j] != ch,
        decreases g.len() - k,
    {
        if g[k] == ch {
            proof {
                let p = position_of(g@, ch);
                assert(0 <= p < g@.len() && g@[p] == ch);
            }
            return k;
        }
        k = k + 1;
    }
    proof {
        let m = choose|m: int| 0 <= m < g@.len() && g@[m] == ch;
        assert(g@[m] == ch);
    }
    0
}

/// The vocabulary as the shader sees it: one row per draw slot, each holding
/// up to [`MAX_CHARS`] glyph indices with `-1` for the unused tail.
///
/// Weights are expanded here: a weighted word is simply a word occupying
/// several rows.
pub fn draw_slots() -> (r: Vec<[i32; MAX_CHARS]>)
    ensures
        r@.len() == total_slots(vocabulary()),
        r@.len() <= MAX_SLOTS,
        forall|i: int| 0 <= i < r@.len() ==> (#[trigger] r@[i])@ == expand(vocabulary())[i],
{
    let g = glyphs();
    let ws = words();
    proof {
        lemma_vocabulary_shape();
        lemma_glyph_count();
    }
    let mut slots: Vec<[i32; MAX_CHARS]> = Vec::new();
    let mut i: usize = 0;
    assert(ws@.take(0) =~= Seq::<Word>::empty());
    while i < ws.len()
        invariant
            i <= ws@.len(),
            ws@ == vocabulary(),
            g@ == glyph_table(),
            g@.len() <= 146,
            g@.no_duplicates(),
            forall|c: char| g@.contains(c) <==> all_chars(vocabulary()).contains(c),
            forall|j: int|
                0 <= j < vocabulary().len() ==> 1 <= (#[trigger] vocabulary()[j]).text@.len()
                    <= MAX_CHARS,
            total_slots(vocabulary()) == 61,
            slots@.len() == total_slots(ws@.take(i as int)),
            forall|j: int|
                0 <= j < slots@.len() ==> (#[trigger] slots@[j])@ == expand(ws@.take(i as int))[j],
        decreases ws.len() - i,
    {
        let w = &ws[i];
        let cs = chars_of(w.text);
        assert(1 <= cs@.len() <= MAX_CHARS);
        let mut idx: [i32; MAX_CHARS] = [-1i32, -1i32, -1i32, -1i32];
        let mut k: usize = 0;
        while k < cs.len()
            invariant
                k <= cs@.len() <= MAX_CHARS,
                cs@ == ws@[i as int].text@,
                0 <= i < ws@.len(),
                ws@ == vocabulary(),
                g@ == glyph_table(),
                g@.len() <= 146,
                g@.no_duplicates(),
                forall|c: char| g@.contains(c) <==> all_chars(vocabulary()).contains(c),
                idx@.len() == MAX_CHARS,
                forall|m: int| 0 <= m < k ==> idx@[m] == slot_row(ws@[i as int])[m],
                forall|m: int| k <= m < MAX_CHARS ==> idx@[m] == -1i32,
            decreases cs.len() - k,
        {
            proof {
                lemma_all_chars_holds(vocabulary(), i as int, k as int);
            }
            let p = find_glyph(&g, cs[k]);
            idx[k] = p as i32;
            k = k + 1;
        }
        assert(idx@ =~= slot_row(ws@[i as int]));
        let n: u8 = if w.weight == 0 {
            1
        } else {
            w.weight
        };
        let ghost before = slots@;
        let mut c: u8 = 0;
        proof {
            lemma_prefix_step(ws@, i as int);
            lemma_slots_bound(ws@, i as int + 1);
        }
        while c < n
            invariant
                c <= n,
                n as int == slots_of(ws@[i as int]),
                idx@ == slot_row(ws@[i as int]),
                slots@.len() == before.len() + c,
                before.len() + n <= 61,
                before.len() == total_slots(ws@.take(i as int)),
                forall|j: int|
                    0 <= j < before.len() ==> (#[trigger] before[j])@ == expand(
                        ws@.take(i as int),
                    )[j],
                forall|j: int| 0 <= j < before.len() ==> (#[trigger] slots@[j]) == before[j],
                forall|j: int|
                    before.len() <= j < slots@.len() ==> (#[trigger] slots@[j])@ == slot_row(
                        ws@[i as int],
                    ),
            decreases n - c,
        {
            slots.push(idx);
            c = c + 1;
        }
        proof {
            let t = ws@.take(i + 1);
            assert(t.drop_last() =~= ws@.take(i as int));
            assert(t.last() == ws@[i as int]);
            let row = Seq::new(slots_of(ws@[i as int]) as nat, |_k: int| slot_row(ws@[i as int]));
            assert(expand(t) == expand(ws@.take(i as int)) + row);
            lemma_expand_len(ws@.take(i as int));
            assert forall|j: int| 0 <= j < slots@.len() implies (#[trigger] slots@[j])@ == expand(
                t,
            )[j] by {
                if j < before.len() {
                    assert(slots@[j] == before[j]);
                } else {
                    assert(row[j - before.len()] == slot_row(ws@[i as int]));
                }
            }
        }
        i = i + 1;
    }
    assert(ws@.take(ws@.len() as int) =~= ws@);
    slots
}

proof fn lemma_slots_bound(ws: Seq<Word>, k: int)
    requires
        0 <= k <= ws.len(),
    ensures
        total_slots(ws.take(k)) <= total_slots(ws),
    decreases ws.len() - k,
{
    if k < ws.len() {
        lemma_slots_bound(ws, k + 1);
        lemma_prefix_step(ws, k);
    } else {
        assert(ws.take(k) =~= ws);
    }
}

} // verus!
