//! Small English/Korean/Japanese/Chinese lookup table.

use crate::text::{
    chars_of, dec, eq_chars, eq_ignore_ascii_case, eq_ignore_ascii_case_chars, to_lower,
    lowercase_chars, push_dec,
};
use vstd::prelude::*;
use vstd::string::*;

verus! {

#[derive(Clone, Copy, Debug, PartialEq, Eq, Structural)]
pub enum Lang {
    En,
    Ko,
    Ja,
    Zh,
}

/// The language a lower-cased tag names: its first two bytes `ko`, `ja` or
/// `zh` (both ASCII, so they are its first two characters); English otherwise.
pub open spec fn lang_of_lower(t: Seq<char>) -> Lang {
    if t.len() >= 2 && t[0] == 'k' && t[1] == 'o' {
        Lang::Ko
    } else if t.len() >= 2 && t[0] == 'j' && t[1] == 'a' {
        Lang::Ja
    } else if t.len() >= 2 && t[0] == 'z' && t[1] == 'h' {
        Lang::Zh
    } else {
        Lang::En
    }
}

/// The language a tag selects; `auto` (any case) defers to `auto_tag`, the
/// environment's language tag.
pub open spec fn spec_parse_lang(s: Seq<char>, auto_tag: Seq<char>) -> Lang {
    let tag = if eq_ignore_ascii_case(s, "auto"@) {
        auto_tag
    } else {
        s
    };
    lang_of_lower(to_lower(tag))
}

pub open spec fn lang_index(l: Lang) -> int {
    match l {
        Lang::En => 0,
        Lang::Ko => 1,
        Lang::Ja => 2,
        Lang::Zh => 3,
    }
}

impl Lang {
    /// Parse a language tag (`en`, `ko_KR.UTF-8`, …); falls back to English.
    /// Given `auto`, the tag read from `$ATK68_LANG` / `$LANG` decides.
    pub fn parse(s: &str, auto_tag: &str) -> (r: Lang)
        ensures
            r == spec_parse_lang(s@, auto_tag@),
    {
        let sv = chars_of(s);
        let auto = chars_of("auto");
        let tag = if eq_ignore_ascii_case_chars(&sv, &auto) {
            chars_of(auto_tag)
        } else {
            sv
        };
        let t = lowercase_chars(&tag);
        if t.len() >= 2 && t[0] == 'k' && t[1] == 'o' {
            Lang::Ko
        } else if t.len() >= 2 && t[0] == 'j' && t[1] == 'a' {
            Lang::Ja
        } else if t.len() >= 2 && t[0] == 'z' && t[1] == 'h' {
            Lang::Zh
        } else {
            Lang::En
        }
    }

    pub fn idx(self) -> (r: usize)
        ensures
            r == lang_index(self),
            r < 4,
    {
        match self {
            Lang::En => 0,
            Lang::Ko => 1,
            Lang::Ja => 2,
            Lang::Zh => 3,
        }
    }
}

/// key -> [English, Korean, Japanese, Chinese]
pub open spec fn string_table() -> Seq<(&'static str, [&'static str; 4])> {
    seq![
        ("no_device", [
            "No ATK/VXE keyboard found (is it plugged in?)",
            "ATK/VXE 키보드를 찾을 수 없습니다 (연결되어 있나요?)",
            "ATK/VXEキーボードが見つかりません（接続されていますか？）",
            "未找到 ATK/VXE 键盘（是否已连接？）",
        ]),
        ("proto_version", ["Protocol version", "프로토콜 버전", "プロトコルバージョン", "协议版本"]),
        ("lighting", ["Lighting", "조명", "ライティング", "灯光"]),
        ("effect", ["Effect", "효과", "効果", "灯效"]),
        ("brightness", ["Brightness", "밝기", "明るさ", "亮度"]),
        ("speed", ["Speed", "속도", "速度", "速度"]),
        ("color", ["Color", "색상", "色", "颜色"]),
        ("rainbow", ["Rainbow", "무지개", "レインボー", "彩色"]),
        ("actuation", ["Actuation", "작동점", "アクチュエーション", "触发行程"]),
        ("rt_press", ["Rapid trigger (press)", "래피드 트리거(누름)", "ラピッドトリガー（押下）", "快速触发（按下）"]),
        ("rt_release", ["Rapid trigger (release)", "래피드 트리거(뗌)", "ラピッドトリガー（解放）", "快速触发（释放）"]),
        ("not_saved", [
            "Applied (RAM; reverts on replug — keep a profile with `export`/`apply`).",
            "적용됨 (RAM; 재연결 시 초기화 — `export`/`apply`로 프로파일 유지).",
            "適用（RAM；再接続でリセット — `export`/`apply`でプロファイル保持）。",
            "已应用（内存；重插会重置 — 用 `export`/`apply` 保留配置）。",
        ]),
    ]
}

fn strings() -> (r: Vec<(&'static str, [&'static str; 4])>)
    ensures
        r@ == string_table(),
{
    let r = vec![
        ("no_device", [
            "No ATK/VXE keyboard found (is it plugged in?)",
            "ATK/VXE 키보드를 찾을 수 없습니다 (연결되어 있나요?)",
            "ATK/VXEキーボードが見つかりません（接続されていますか？）",
            "未找到 ATK/VXE 键盘（是否已连接？）",
        ]),
        ("proto_version", ["Protocol version", "프로토콜 버전", "プロトコルバージョン", "协议版本"]),
        ("lighting", ["Lighting", "조명", "ライティング", "灯光"]),
        ("effect", ["Effect", "효과", "効果", "灯效"]),
        ("brightness", ["Brightness", "밝기", "明るさ", "亮度"]),
        ("speed", ["Speed", "속도", "速度", "速度"]),
        ("color", ["Color", "색상", "色", "颜色"]),
        ("rainbow", ["Rainbow", "무지개", "レインボー", "彩色"]),
        ("actuation", ["Actuation", "작동점", "アクチュエーション", "触发行程"]),
        ("rt_press", ["Rapid trigger (press)", "래피드 트리거(누름)", "ラピッドトリガー（押下）", "快速触发（按下）"]),
        ("rt_release", ["Rapid trigger (release)", "래피드 트리거(뗌)", "ラピッドトリガー（解放）", "快速触发（释放）"]),
        ("not_saved", [
            "Applied (RAM; reverts on replug — keep a profile with `export`/`apply`).",
            "적용됨 (RAM; 재연결 시 초기화 — `export`/`apply`로 프로파일 유지).",
            "適用（RAM；再接続でリセット — `export`/`apply`でプロファイル保持）。",
            "已应用（内存；重插会重置 — 用 `export`/`apply` 保留配置）。",
        ]),
    ];
    assert(r@ =~= string_table());
    r
}

/// The first entry of `s` whose key is `key`.
pub open spec fn lookup(s: Seq<(&'static str, [&'static str; 4])>, key: Seq<char>) -> Option<
    [&'static str; 4],
>
    decreases s.len(),
{
    if s.len() == 0 {
        None
    } else if s[0].0@ == key {
        Some(s[0].1)
    } else {
        lookup(s.drop_first(), key)
    }
}

/// What `tr` shows: the entry's text in `lang`, or the key itself when the
/// table has no such key.
pub open spec fn spec_tr(lang: Lang, key: Seq<char>) -> Seq<char> {
    match lookup(string_table(), key) {
        Some(v) => v@[lang_index(lang)]@,
        None => key,
    }
}

/// The user-facing text for `key` in `lang`.
pub fn tr(lang: Lang, key: &'static str) -> (r: &'static str)
    ensures
        r@ == spec_tr(lang, key@),
{
    let table = strings();
    let k = chars_of(key);
    let mut i: usize = 0;
    assert(table@.subrange(0, table.len() as int) =~= table@);
    while i < table.len()
        invariant
            i <= table.len(),
            table@ == string_table(),
            k@ == key@,
            lookup(string_table(), key@) == lookup(
                table@.subrange(i as int, table.len() as int),
                key@,
            ),
        decreases table.len() - i,
    {
        let ghost rest = table@.subrange(i as int, table.len() as int);
        assert(rest[0] == table@[i as int]);
        assert(rest.drop_first() =~= table@.subrange(i + 1, table.len() as int));
        let entry = table[i];
        let ek = chars_of(entry.0);
        if eq_chars(&ek, &k) {
            return entry.1[lang.idx()];
        }
        i = i + 1;
    }
    key
}

/// Effect names indexed by effect id (the firmware's back-light list).
pub open spec fn effect_table() -> Seq<(&'static str, [&'static str; 4])> {
    seq![
        ("spectrum", ["Spectrum Cycle", "스펙트럼 순환", "スペクトラムサイクル", "光谱循环"]),
        ("static", ["Static", "단색 고정", "静的", "常亮"]),
        ("wave_lr", ["Wave (L→R)", "물결(좌→우)", "ウェーブ(左→右)", "左往右冲浪"]),
        ("breathing", ["Breathing", "호흡", "ブリージング", "呼吸"]),
        ("snake", ["Snake", "뱀 흐름", "スネーク", "蛇形跑灯"]),
        ("reactive", ["Reactive", "키 반응", "リアクティブ", "磁力辐射"]),
        ("rotate", ["Rotate", "회전", "回転", "旋转跑灯"]),
        ("wave_center", ["Wave (to centre)", "물결(중앙)", "ウェーブ(中央)", "往中冲浪"]),
        ("fountain", ["Fountain", "분수", "ファウンテン", "七彩喷泉"]),
        ("laser", ["Laser", "레이저", "レーザー", "激光"]),
        ("custom", ["Custom", "사용자 지정", "カスタム", "自定义"]),
    ]
}

/// Effect names indexed by effect id.
pub fn effects() -> (r: Vec<(&'static str, [&'static str; 4])>)
    ensures
        r@ == effect_table(),
{
    let r = vec![
        ("spectrum", ["Spectrum Cycle", "스펙트럼 순환", "スペクトラムサイクル", "光谱循环"]),
        ("static", ["Static", "단색 고정", "静的", "常亮"]),
        ("wave_lr", ["Wave (L→R)", "물결(좌→우)", "ウェーブ(左→右)", "左往右冲浪"]),
        ("breathing", ["Breathing", "호흡", "ブリージング", "呼吸"]),
        ("snake", ["Snake", "뱀 흐름", "スネーク", "蛇形跑灯"]),
        ("reactive", ["Reactive", "키 반응", "リアクティブ", "磁力辐射"]),
        ("rotate", ["Rotate", "회전", "回転", "旋转跑灯"]),
        ("wave_center", ["Wave (to centre)", "물결(중앙)", "ウェーブ(中央)", "往中冲浪"]),
        ("fountain", ["Fountain", "분수", "ファウンテン", "七彩喷泉"]),
        ("laser", ["Laser", "레이저", "レーザー", "激光"]),
        ("custom", ["Custom", "사용자 지정", "カスタム", "自定义"]),
    ];
    assert(r@ =~= effect_table());
    r
}

/// The name of effect `id` in `lang`; unknown ids render as `effect <n>`.
pub open spec fn spec_effect_name(lang: Lang, id: u8) -> Seq<char> {
    if (id as int) < effect_table().len() {
        effect_table()[id as int].1@[lang_index(lang)]@
    } else {
        "effect "@ + dec(id as nat)
    }
}

pub fn effect_name(lang: Lang, id: u8) -> (r: String)
    ensures
        r@ == spec_effect_name(lang, id),
{
    let table = effects();
    if (id as usize) < table.len() {
        String::from_str(table[id as usize].1[lang.idx()])
    } else {
        let mut s = String::from_str("effect ");
        push_dec(&mut s, id as u64);
        s
    }
}

} // verus!
