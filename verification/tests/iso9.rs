use small_tools::iso9::{Converter, HardSoftSign, HookToLeft};

/// Shows a string character by character above its bytes, for the
/// message of a failed comparison.
fn str_format_chars_and_bytes(s: &str) -> String {
    let mut chars = String::new();
    let mut bytes = String::new();
    let starts: Vec<(usize, char)> = s.char_indices().collect();
    for (i, byte) in s.as_bytes().iter().enumerate() {
        let shown = match starts.iter().find(|(at, _)| *at == i) {
            Some(&(_, c)) => c,
            None => ' ',
        };
        chars.push_str(&format!("{:>3}", shown));
        bytes.push_str(&format!(" {:02x}", byte));
    }
    format!("{}\n{}", chars, bytes)
}

fn test_convert(converter: &Converter, input: &str, expected: &str) {
    let converted = converter.convert(input);
    assert_eq!(
        converted,
        expected,
        "\n{}\n{}",
        str_format_chars_and_bytes(&converted),
        str_format_chars_and_bytes(expected)
    );
}

#[test]
fn converter_to_cyrillic_capital() {
    let c = Converter::to_cyrillic(HardSoftSign::Capital);
    test_convert(&c, "", "");
    test_convert(&c, "đabŭỤ̈deFḰt123c̀iю", "ђабўӰ̄деФЌт123ч̀ию");
    test_convert(&c, "abĹEi ĺ", "абЛ’Еи л’");
    // abk
    test_convert(&c, "Ac̄h alṕha uouaait.", "Аҵх алҧха уоуааит.");
    // bak
    test_convert(&c, "Ḥeð bašǩortsa ḥôjla̋ša̋ḥegeðme?",
                 "Һеҙ башҡортса һөйләшәһегеҙме?");
    // bel
    test_convert(&c, "Maë sudna na pavetranaj padušcy poŭna vugramì.",
                 "Маё судна на паветранай падушцы поўна вуграмі.");
    // bul
    test_convert(&c,
                 "Korabʺt mi na vʺzdušna vʺzglavnica e pʺlen sʺs zmiorki.",
                 "КорабЪт ми на вЪздушна вЪзглавница е пЪлен сЪс змиорки.");
    // chv
    test_convert(&c, "Tarhasšăn, majĕpenreh kalaşăr.",
                 "Тархасшӑн, майӗпенрех калаҫӑр.");
    test_convert(&c, "Tarhasšăn, majĕpenreh kalașăr.",
                 "Тархасшӑн, майӗпенрех калаҫӑр.");
    // kaz
    test_convert(&c, "Menìņ a̋ue negìz kemesì žylanbalyķpen toltyrylġan.",
                 "Менің әуе негіз кемесі жыланбалықпен толтырылған.");
    test_convert(&c, "Menìn̦ a̋ue negìz kemesì žylanbalyk̦pen toltyrylġan.",
                 "Менің әуе негіз кемесі жыланбалықпен толтырылған.");
    // kir
    test_convert(&c, "Menin aba kemem kurt balyktar menen tolup turat.",
                 "Менин аба кемем курт балыктар менен толуп турат.");
    // mdf
    test_convert(&c, "Kožftodu venežeze gujgalda pâškse.",
                 "Кожфтоду венежезе гуйгалда пяшксе.");
    // mkd
    test_convert(&c, "Moeto letačko vozilo e polno so ǰaguli.",
                 "Моето летачко возило е полно со јагули.");
    // mon
    test_convert(&c, "Minij hôvôgč ongoc mogoj zagasaar dùùrsèn bajna.",
                 "Миний хөвөгч онгоц могой загасаар дүүрсэн байна.");
    // myv
    test_convert(&c, "Monʹ venčesʹ koštonʹ todovso sval pešksè ëzny kalso.",
                 "МонЬ венчесЬ коштонЬ тодовсо свал пешксэ ёзны калсо.");
    // oss
    test_convert(&c, "Æhsyzgon myn u demæ bazongæ uyn.",
                 "Ӕхсызгон мын у демӕ базонгӕ уын.");
    // rus
    test_convert(&c, "Moë sudno na vozdušnoj poduške polno ugrej.",
                 "Моё судно на воздушной подушке полно угрей.");
    // Rusyn
    test_convert(&c, "Êden âzyk neê nig̀da dostatnʹo.",
                 "Єден язык неє ниґда достатнЬо.");
    // sah
    test_convert(&c, "Miigin kytta ùṅkùùlùôhhùtùn bağarağyt duo?",
                 "Миигин кытта үҥкүүлүөххүтүн баҕараҕыт дуо?");
    // srp
    test_convert(&c, "Moǰ hoverkraft ǰe pun ǰegul̂a.",
                 "Мој ховеркрафт је пун јегуља.");
    // tgk
    test_convert(&c, "Az vohuriamon šod ḩastam.",
                 "Аз вохуриамон шод ҳастам.");
    test_convert(&c, "Az vohuriamon šod h̦astam.",
                 "Аз вохуриамон шод ҳастам.");
    // ukr
    test_convert(&c, "Moê sudno na povìtrânìj podušcì napovnene vugrami.",
                 "Моє судно на повітряній подушці наповнене вуграми.");
}

#[test]
fn converter_to_cyrillic_small() {
    let c = Converter::to_cyrillic(HardSoftSign::Small);
    test_convert(&c, "", "");
    test_convert(&c, "đabŭỤ̈deFḰt123c̀iю", "ђабўӰ̄деФЌт123ч̀ию");
    test_convert(&c, "abĹEi ĺ", "абЛ’Еи л’");
    // abk
    test_convert(&c, "Ac̄h alṕha uouaait.", "Аҵх алҧха уоуааит.");
    // bak
    test_convert(&c, "Ḥeð bašǩortsa ḥôjla̋ša̋ḥegeðme?",
                 "Һеҙ башҡортса һөйләшәһегеҙме?");
    // bel
    test_convert(&c, "Maë sudna na pavetranaj padušcy poŭna vugramì.",
                 "Маё судна на паветранай падушцы поўна вуграмі.");
    // bul
    test_convert(&c,
                 "Korabʺt mi na vʺzdušna vʺzglavnica e pʺlen sʺs zmiorki.",
                 "Корабът ми на въздушна възглавница е пълен със змиорки.");
    // chv
    test_convert(&c, "Tarhasšăn, majĕpenreh kalaşăr.",
                 "Тархасшӑн, майӗпенрех калаҫӑр.");
    test_convert(&c, "Tarhasšăn, majĕpenreh kalașăr.",
                 "Тархасшӑн, майӗпенрех калаҫӑр.");
    // kaz
    test_convert(&c, "Menìņ a̋ue negìz kemesì žylanbalyķpen toltyrylġan.",
                 "Менің әуе негіз кемесі жыланбалықпен толтырылған.");
    test_convert(&c, "Menìn̦ a̋ue negìz kemesì žylanbalyk̦pen toltyrylġan.",
                 "Менің әуе негіз кемесі жыланбалықпен толтырылған.");
    // kir
    test_convert(&c, "Menin aba kemem kurt balyktar menen tolup turat.",
                 "Менин аба кемем курт балыктар менен толуп турат.");
    // mdf
    test_convert(&c, "Kožftodu venežeze gujgalda pâškse.",
                 "Кожфтоду венежезе гуйгалда пяшксе.");
    // mkd
    test_convert(&c, "Moeto letačko vozilo e polno so ǰaguli.",
                 "Моето летачко возило е полно со јагули.");
    // mon
    test_convert(&c, "Minij hôvôgč ongoc mogoj zagasaar dùùrsèn bajna.",
                 "Миний хөвөгч онгоц могой загасаар дүүрсэн байна.");
    // myv
    test_convert(&c, "Monʹ venčesʹ koštonʹ todovso sval pešksè ëzny kalso.",
                 "Монь венчесь коштонь тодовсо свал пешксэ ёзны калсо.");
    // oss
    test_convert(&c, "Æhsyzgon myn u demæ bazongæ uyn.",
                 "Ӕхсызгон мын у демӕ базонгӕ уын.");
    // rus
    test_convert(&c, "Moë sudno na vozdušnoj poduške polno ugrej.",
                 "Моё судно на воздушной подушке полно угрей.");
    // Rusyn
    test_convert(&c, "Êden âzyk neê nig̀da dostatnʹo.",
                 "Єден язык неє ниґда достатньо.");
    // sah
    test_convert(&c, "Miigin kytta ùṅkùùlùôhhùtùn bağarağyt duo?",
                 "Миигин кытта үҥкүүлүөххүтүн баҕараҕыт дуо?");
    // srp
    test_convert(&c, "Moǰ hoverkraft ǰe pun ǰegul̂a.",
                 "Мој ховеркрафт је пун јегуља.");
    // tgk
    test_convert(&c, "Az vohuriamon šod ḩastam.",
                 "Аз вохуриамон шод ҳастам.");
    test_convert(&c, "Az vohuriamon šod h̦astam.",
                 "Аз вохуриамон шод ҳастам.");
    // ukr
    test_convert(&c, "Moê sudno na povìtrânìj podušcì napovnene vugrami.",
                 "Моє судно на повітряній подушці наповнене вуграми.");
}

#[test]
fn converter_to_latin_cedilla() {
    let c = Converter::to_latin(HookToLeft::Cedilla);
    test_convert(&c, "", "");
    test_convert(&c, "abcђdӰ̄eFЌт123юhij", "abcđdỤ̈eFḰt123ûhij");
    test_convert(&c, "абЛ’Еи л’", "abĹEi ĺ");
    // abk
    test_convert(&c, "Аҵх алҧха уоуааит.", "Ac̄h alṕha uouaait.");
    // bak
    test_convert(&c, "Һеҙ башҡортса һөйләшәһегеҙме?",
                 "Ḥeð bašǩortsa ḥôjla̋ša̋ḥegeðme?");
    // bel
    test_convert(&c, "Маё судна на паветранай падушцы поўна вуграмі.",
                 "Maë sudna na pavetranaj padušcy poŭna vugramì.");
    // bul
    test_convert(&c,
                 "Корабът ми на въздушна възглавница е пълен със змиорки.",
                 "Korabʺt mi na vʺzdušna vʺzglavnica e pʺlen sʺs zmiorki.");
    // chv
    test_convert(&c, "Тархасшӑн, майӗпенрех калаҫӑр.",
                 "Tarhasšăn, majĕpenreh kalaşăr.");
    // kaz
    test_convert(&c, "Менің әуе негіз кемесі жыланбалықпен толтырылған.",
                 "Menìņ a̋ue negìz kemesì žylanbalyķpen toltyrylġan.");
    // kir
    test_convert(&c, "Менин аба кемем курт балыктар менен толуп турат.",
                 "Menin aba kemem kurt balyktar menen tolup turat.");
    // mdf
    test_convert(&c, "Кожфтоду венежезе гуйгалда пяшксе.",
                 "Kožftodu venežeze gujgalda pâškse.");
    // mkd
    test_convert(&c, "Моето летачко возило е полно со јагули.",
                 "Moeto letačko vozilo e polno so ǰaguli.");
    // mon
    test_convert(&c, "Миний хөвөгч онгоц могой загасаар дүүрсэн байна.",
                 "Minij hôvôgč ongoc mogoj zagasaar dùùrsèn bajna.");
    // myv
    test_convert(&c, "Монь венчесь коштонь тодовсо свал пешксэ ёзны калсо.",
                 "Monʹ venčesʹ koštonʹ todovso sval pešksè ëzny kalso.");
    // oss
    test_convert(&c, "Ӕхсызгон мын у демӕ базонгӕ уын.",
                 "Æhsyzgon myn u demæ bazongæ uyn.");
    // rus
    test_convert(&c, "Моё судно на воздушной подушке полно угрей.",
                 "Moë sudno na vozdušnoj poduške polno ugrej.");
    // Rusyn
    test_convert(&c, "Єден язык неє ниґда достатньо.",
                 "Êden âzyk neê nig̀da dostatnʹo.");
    // sah
    test_convert(&c, "Миигин кытта үҥкүүлүөххүтүн баҕараҕыт дуо?",
                 "Miigin kytta ùṅkùùlùôhhùtùn bağarağyt duo?");
    // srp
    test_convert(&c, "Мој ховеркрафт је пун јегуља.",
                 "Moǰ hoverkraft ǰe pun ǰegul̂a.");
    // tgk
    test_convert(&c, "Аз вохуриамон шод ҳастам.",
                 "Az vohuriamon šod ḩastam.");
    // ukr
    test_convert(&c, "Моє судно на повітряній подушці наповнене вуграми.",
                 "Moê sudno na povìtrânìj podušcì napovnene vugrami.");
}

#[test]
fn converter_to_latin_comma_below() {
    let c = Converter::to_latin(HookToLeft::CommaBelow);
    test_convert(&c, "", "");
    test_convert(&c, "abcђdӰ̄eFЌт123юhij", "abcđdỤ̈eFḰt123ûhij");
    test_convert(&c, "абЛ’Еи л’", "abĹEi ĺ");
    // abk
    test_convert(&c, "Аҵх алҧха уоуааит.", "Ac̄h alṕha uouaait.");
    // bak
    test_convert(&c, "Һеҙ башҡортса һөйләшәһегеҙме?",
                 "Ḥeð bašǩortsa ḥôjla̋ša̋ḥegeðme?");
    // bel
    test_convert(&c, "Маё судна на паветранай падушцы поўна вуграмі.",
                 "Maë sudna na pavetranaj padušcy poŭna vugramì.");
    // bul
    test_convert(&c,
                 "Корабът ми на въздушна възглавница е пълен със змиорки.",
                 "Korabʺt mi na vʺzdušna vʺzglavnica e pʺlen sʺs zmiorki.");
    // chv
    test_convert(&c, "Тархасшӑн, майӗпенрех калаҫӑр.",
                 "Tarhasšăn, majĕpenreh kalașăr.");
    // kaz
    test_convert(&c, "Менің әуе негіз кемесі жыланбалықпен толтырылған.",
                 "Menìn̦ a̋ue negìz kemesì žylanbalyk̦pen toltyrylġan.");
    // kir
    test_convert(&c, "Менин аба кемем курт балыктар менен толуп турат.",
                 "Menin aba kemem kurt balyktar menen tolup turat.");
    // mdf
    test_convert(&c, "Кожфтоду венежезе гуйгалда пяшксе.",
                 "Kožftodu venežeze gujgalda pâškse.");
    // mkd
    test_convert(&c, "Моето летачко возило е полно со јагули.",
                 "Moeto letačko vozilo e polno so ǰaguli.");
    // mon
    test_convert(&c, "Миний хөвөгч онгоц могой загасаар дүүрсэн байна.",
                 "Minij hôvôgč ongoc mogoj zagasaar dùùrsèn bajna.");
    // myv
    test_convert(&c, "Монь венчесь коштонь тодовсо свал пешксэ ёзны калсо.",
                 "Monʹ venčesʹ koštonʹ todovso sval pešksè ëzny kalso.");
    // oss
    test_convert(&c, "Ӕхсызгон мын у демӕ базонгӕ уын.",
                 "Æhsyzgon myn u demæ bazongæ uyn.");
    // rus
    test_convert(&c, "Моё судно на воздушной подушке полно угрей.",
                 "Moë sudno na vozdušnoj poduške polno ugrej.");
    // Rusyn
    test_convert(&c, "Єден язык неє ниґда достатньо.",
                 "Êden âzyk neê nig̀da dostatnʹo.");
    // sah
    test_convert(&c, "Миигин кытта үҥкүүлүөххүтүн баҕараҕыт дуо?",
                 "Miigin kytta ùṅkùùlùôhhùtùn bağarağyt duo?");
    // srp
    test_convert(&c, "Мој ховеркрафт је пун јегуља.",
                 "Moǰ hoverkraft ǰe pun ǰegul̂a.");
    // tgk
    test_convert(&c, "Аз вохуриамон шод ҳастам.",
                 "Az vohuriamon šod h̦astam.");
    // ukr
    test_convert(&c, "Моє судно на повітряній подушці наповнене вуграми.",
                 "Moê sudno na povìtrânìj podušcì napovnene vugrami.");
}

#[test]
fn default_signs_and_hooks() {
    assert_eq!(HardSoftSign::default(), HardSoftSign::Small);
    assert_eq!(HookToLeft::default(), HookToLeft::Cedilla);
}

#[test]
fn keys_and_text_are_normalized_before_matching() {
    // the key is written decomposed, the text composed
    let c = Converter::with_replace_map(&vec![("e\u{301}", "x")]);
    assert_eq!(c.convert("\u{e9}"), "x");
    // and the other way round
    let c = Converter::with_replace_map(&vec![("\u{e9}", "x")]);
    assert_eq!(c.convert("e\u{301}"), "x");
}

#[test]
fn replacements_are_normalized() {
    let c = Converter::with_replace_map(&vec![("a", "e\u{301}")]);
    assert_eq!(c.convert("a"), "\u{e9}");
}

#[test]
fn unmatched_text_is_normalized_and_kept() {
    let c = Converter::with_replace_map(&vec![("a", "b")]);
    assert_eq!(c.convert("ze\u{301}a"), "z\u{e9}b");
    assert_eq!(c.convert(""), "");
}

#[test]
fn longest_key_takes_precedence() {
    let c = Converter::with_replace_map(&vec![("a", "1"), ("ab", "2"), ("abc", "3")]);
    assert_eq!(c.convert("abcabxa"), "32x1");
    assert_eq!(c.convert("abd"), "2d");
}

#[test]
fn later_pair_replaces_earlier_pair_with_same_key() {
    let c = Converter::with_replace_map(&vec![("a", "1"), ("b", "2"), ("a", "3")]);
    assert_eq!(c.convert("ab"), "32");
}

#[test]
fn conversion_is_a_single_pass() {
    // what a replacement writes is not replaced again
    let c = Converter::with_replace_map(&vec![("a", "b"), ("b", "c")]);
    assert_eq!(c.convert("ab"), "bc");
}
