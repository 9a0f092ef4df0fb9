//! Transliteration between Latin and Cyrillic script after ISO 9, by a
//! table of replacements applied to text in Normalization Form C, the
//! longest key first.

use crate::normalize::{nfc_chars, nfc_of};
use crate::text::{append_chars, holds_at, string_of};
use vstd::prelude::*;

verus! {

/// Which hard and soft sign a conversion to Cyrillic writes.
#[derive(Clone, Copy, Debug, PartialEq, Eq, Structural)]
pub enum HardSoftSign {
    Capital,
    Small,
}

impl Default for HardSoftSign {
    fn default() -> (sign: HardSoftSign)
        ensures
            sign == HardSoftSign::Small,
    {
        HardSoftSign::Small
    }
}

/// Which Latin letters a conversion to Latin writes for the Cyrillic
/// letters with a descender.
#[derive(Clone, Copy, Debug, PartialEq, Eq, Structural)]
pub enum HookToLeft {
    Cedilla,
    CommaBelow,
}

impl Default for HookToLeft {
    fn default() -> (hook: HookToLeft)
        ensures
            hook == HookToLeft::Cedilla,
    {
        HookToLeft::Cedilla
    }
}

/// The characters of both halves of each pair.
pub open spec fn views_of(pairs: Seq<(&'static str, &'static str)>) -> Seq<(Seq<char>, Seq<char>)> {
    Seq::new(pairs.len(), |i: int| (pairs[i].0@, pairs[i].1@))
}

/// Each pair with its halves exchanged.
pub open spec fn reversed(pairs: Seq<(Seq<char>, Seq<char>)>) -> Seq<(Seq<char>, Seq<char>)> {
    Seq::new(pairs.len(), |i: int| (pairs[i].1, pairs[i].0))
}

/// Each pair with both halves in Normalization Form C.
pub open spec fn normalized(pairs: Seq<(Seq<char>, Seq<char>)>) -> Seq<(Seq<char>, Seq<char>)> {
    Seq::new(pairs.len(), |i: int| (nfc_of(pairs[i].0), nfc_of(pairs[i].1)))
}

/// The map that holds each rule's key with its replacement; of two rules
/// with one key the later stands.
pub open spec fn map_of(rules: Seq<(Seq<char>, Seq<char>)>) -> Map<Seq<char>, Seq<char>>
    decreases rules.len(),
{
    if rules.len() == 0 {
        Map::empty()
    } else {
        map_of(rules.drop_last()).insert(rules.last().0, rules.last().1)
    }
}

/// The replacements that a converter made from `pairs` applies.
pub open spec fn replace_map(pairs: Seq<(Seq<char>, Seq<char>)>) -> Map<Seq<char>, Seq<char>> {
    map_of(normalized(pairs))
}

/// The length of the longest key of `map` that `text` starts with, among
/// the lengths from 1 to `limit`; 0 if `text` starts with no such key.
pub open spec fn longest_match(map: Map<Seq<char>, Seq<char>>, text: Seq<char>, limit: nat) -> nat
    decreases limit,
{
    if limit == 0 {
        0
    } else if map.dom().contains(text.take(limit as int)) {
        limit
    } else {
        longest_match(map, text, (limit - 1) as nat)
    }
}

/// `text` with replacements made from left to right: where the text
/// starts with a key, the longest such key gives way to its replacement;
/// where it starts with none, its first character is kept.
pub open spec fn transliterate(map: Map<Seq<char>, Seq<char>>, text: Seq<char>) -> Seq<char>
    decreases text.len(),
{
    if text.len() == 0 {
        Seq::empty()
    } else {
        let n = longest_match(map, text, text.len());
        if n == 0 {
            seq![text[0]] + transliterate(map, text.skip(1))
        } else if n <= text.len() {
            map[text.take(n as int)] + transliterate(map, text.skip(n as int))
        } else {
            Seq::empty()
        }
    }
}

/// The pairs that `Converter::to_cyrillic` is made from: the table, then
/// the hard and soft sign in the chosen case.
pub open spec fn to_cyrillic_pairs(hard_soft_sign: HardSoftSign) -> Seq<(Seq<char>, Seq<char>)> {
    views_of(TO_CYRILLIC@) + match hard_soft_sign {
        HardSoftSign::Capital => views_of(SIGNS_CAPITAL@),
        HardSoftSign::Small => views_of(SIGNS_SMALL@),
    }
}

/// The pairs that `Converter::to_latin` is made from: the table read
/// from right to left, then the capital hard and soft sign, then the
/// letters with a descender in the chosen form.
pub open spec fn to_latin_pairs(hook_to_left: HookToLeft) -> Seq<(Seq<char>, Seq<char>)> {
    reversed(views_of(TO_CYRILLIC@)) + views_of(SIGNS_TO_LATIN@) + match hook_to_left {
        HookToLeft::Cedilla => views_of(HOOKS_CEDILLA@),
        HookToLeft::CommaBelow => views_of(HOOKS_COMMA_BELOW@),
    }
}

/// The rules of a converter as plain sequences of characters.
pub open spec fn rules_view(rules: Seq<(Vec<char>, Vec<char>)>) -> Seq<(Seq<char>, Seq<char>)> {
    Seq::new(rules.len(), |i: int| (rules[i].0@, rules[i].1@))
}

/// Each pair with its halves exchanged.
pub open spec fn swapped(pairs: Seq<(&'static str, &'static str)>) -> Seq<
    (&'static str, &'static str),
> {
    Seq::new(pairs.len(), |i: int| (pairs[i].1, pairs[i].0))
}

/// The last rule with a given key decides what the map holds for it.
pub proof fn lemma_map_of_last_rule(rules: Seq<(Seq<char>, Seq<char>)>, key: Seq<char>, i: int)
    requires
        0 <= i < rules.len(),
        rules[i].0 == key,
        forall|j: int| i < j < rules.len() ==> rules[j].0 != key,
    ensures
        map_of(rules).dom().contains(key),
        map_of(rules)[key] == rules[i].1,
    decreases rules.len(),
{
    if i < rules.len() - 1 {
        let front = rules.drop_last();
        assert(front[i] == rules[i]);
        assert forall|j: int| i < j < front.len() implies front[j].0 != key by {
            assert(front[j] == rules[j]);
        }
        lemma_map_of_last_rule(front, key, i);
    }
}

/// The map holds no key but those of the rules.
pub proof fn lemma_map_of_keys(rules: Seq<(Seq<char>, Seq<char>)>, key: Seq<char>)
    ensures
        map_of(rules).dom().contains(key) <==> exists|j: int|
            0 <= j < rules.len() && (#[trigger] rules[j]).0 == key,
    decreases rules.len(),
{
    if rules.len() > 0 {
        let front = rules.drop_last();
        lemma_map_of_keys(front, key);
        if map_of(rules).dom().contains(key) {
            if rules.last().0 == key {
                assert(rules[rules.len() - 1].0 == key);
            } else {
                let j = choose|j: int| 0 <= j < front.len() && (#[trigger] front[j]).0 == key;
                assert(rules[j] == front[j]);
            }
        }
        if exists|j: int| 0 <= j < rules.len() && (#[trigger] rules[j]).0 == key {
            let j = choose|j: int| 0 <= j < rules.len() && (#[trigger] rules[j]).0 == key;
            if j < rules.len() - 1 {
                assert(front[j] == rules[j]);
            }
        }
    }
}

/// No key longer than every rule's key matches, so the search for the
/// longest match may start at the length of the longest key.
proof fn lemma_longest_match_bounded(
    rules: Seq<(Seq<char>, Seq<char>)>,
    text: Seq<char>,
    limit: nat,
    bound: nat,
)
    requires
        forall|j: int| 0 <= j < rules.len() ==> (#[trigger] rules[j]).0.len() <= bound,
        bound <= limit <= text.len(),
    ensures
        longest_match(map_of(rules), text, limit) == longest_match(map_of(rules), text, bound),
    decreases limit,
{
    if limit > bound {
        lemma_map_of_keys(rules, text.take(limit as int));
        lemma_longest_match_bounded(rules, text, (limit - 1) as nat, bound);
    }
}

/// A table of replacements, applied to text by `convert`.
pub struct Converter {
    replace_map: Vec<(Vec<char>, Vec<char>)>,
    key_len_max: usize,
}

impl View for Converter {
    type V = Map<Seq<char>, Seq<char>>;

    /// The replacement that the converter makes for each key.
    closed spec fn view(&self) -> Map<Seq<char>, Seq<char>> {
        map_of(rules_view(self.replace_map@))
    }
}

/// Appends `pairs` to `list`, each with its halves exchanged if `reverse`
/// is set.
fn extend_pairs(
    list: &mut Vec<(&'static str, &'static str)>,
    pairs: &[(&'static str, &'static str)],
    reverse: bool,
)
    ensures
        final(list)@ == old(list)@ + if reverse {
            swapped(pairs@)
        } else {
            pairs@
        },
{
    let ghost added = if reverse {
        swapped(pairs@)
    } else {
        pairs@
    };
    let mut i: usize = 0;
    while i < pairs.len()
        invariant
            i <= pairs.len(),
            added == if reverse {
                swapped(pairs@)
            } else {
                pairs@
            },
            list@ == old(list)@ + added.take(i as int),
        decreases pairs.len() - i,
    {
        let (from, to) = pairs[i];
        if reverse {
            list.push((to, from));
        } else {
            list.push((from, to));
        }
        i = i + 1;
        assert(added.take(i as int) =~= added.take(i - 1).push(added[i - 1]));
        assert(list@ =~= old(list)@ + added.take(i as int));
    }
    assert(added.take(pairs.len() as int) =~= added);
}

impl Converter {
    #[verifier::type_invariant]
    spec fn key_len_bounded(&self) -> bool {
        forall|j: int|
            0 <= j < self.replace_map@.len() ==> (#[trigger] self.replace_map@[j]).0@.len()
                <= self.key_len_max
    }

    /// Makes a converter from pairs of a key and its replacement. Both
    /// are brought into Normalization Form C; of two pairs whose keys
    /// are then the same, the later stands.
    pub fn with_replace_map(pairs: &Vec<(&'static str, &'static str)>) -> (converter: Converter)
        requires
            pairs.len() > 0,
        ensures
            converter@ == replace_map(views_of(pairs@)),
    {
        let ghost goal = normalized(views_of(pairs@));
        let mut rules: Vec<(Vec<char>, Vec<char>)> = Vec::new();
        let mut key_len_max: usize = 0;
        let mut i: usize = 0;
        while i < pairs.len()
            invariant
                i <= pairs.len(),
                goal == normalized(views_of(pairs@)),
                rules_view(rules@) == goal.take(i as int),
                rules.len() == i,
                forall|j: int| 0 <= j < rules@.len() ==> (#[trigger] rules@[j]).0@.len() <= key_len_max,
            decreases pairs.len() - i,
        {
            let (from, to) = pairs[i];
            let key = nfc_chars(from);
            let value = nfc_chars(to);
            if key.len() > key_len_max {
                key_len_max = key.len();
            }
            rules.push((key, value));
            i = i + 1;
            assert(rules_view(rules@) =~= goal.take(i as int));
        }
        assert(goal.take(pairs.len() as int) =~= goal);
        Converter { replace_map: rules, key_len_max }
    }

    /// The converter from Latin to Cyrillic script.
    pub fn to_cyrillic(hard_soft_sign: HardSoftSign) -> (converter: Converter)
        ensures
            converter@ == replace_map(to_cyrillic_pairs(hard_soft_sign)),
    {
        let mut pairs: Vec<(&'static str, &'static str)> = Vec::new();
        extend_pairs(&mut pairs, TO_CYRILLIC.as_slice(), false);
        match hard_soft_sign {
            HardSoftSign::Capital => extend_pairs(&mut pairs, SIGNS_CAPITAL.as_slice(), false),
            HardSoftSign::Small => extend_pairs(&mut pairs, SIGNS_SMALL.as_slice(), false),
        }
        assert(views_of(pairs@) =~= to_cyrillic_pairs(hard_soft_sign));
        Converter::with_replace_map(&pairs)
    }

    /// The converter from Cyrillic to Latin script.
    pub fn to_latin(hook_to_left: HookToLeft) -> (converter: Converter)
        ensures
            converter@ == replace_map(to_latin_pairs(hook_to_left)),
    {
        let mut pairs: Vec<(&'static str, &'static str)> = Vec::new();
        extend_pairs(&mut pairs, TO_CYRILLIC.as_slice(), true);
        extend_pairs(&mut pairs, SIGNS_TO_LATIN.as_slice(), false);
        match hook_to_left {
            HookToLeft::Cedilla => extend_pairs(&mut pairs, HOOKS_CEDILLA.as_slice(), false),
            HookToLeft::CommaBelow => extend_pairs(
                &mut pairs,
                HOOKS_COMMA_BELOW.as_slice(),
                false,
            ),
        }
        assert(views_of(pairs@) =~= to_latin_pairs(hook_to_left));
        Converter::with_replace_map(&pairs)
    }

    /// Looks for the last rule whose key is the `n` characters of `text`
    /// from `pos` on.
    fn find(&self, text: &Vec<char>, pos: usize, n: usize) -> (found: Option<usize>)
        requires
            pos + n <= text.len(),
        ensures
            match found {
                Some(i) => i < self.replace_map.len() && self@.dom().contains(
                    text@.subrange(pos as int, pos + n),
                ) && self@[text@.subrange(pos as int, pos + n)] == self.replace_map[i as int].1@,
                None => !self@.dom().contains(text@.subrange(pos as int, pos + n)),
            },
    {
        let ghost key = text@.subrange(pos as int, pos + n);
        let ghost rules = rules_view(self.replace_map@);
        let mut i: usize = self.replace_map.len();
        while i > 0
            invariant
                pos + n <= text.len(),
                key == text@.subrange(pos as int, pos + n),
                rules == rules_view(self.replace_map@),
                i <= self.replace_map.len(),
                forall|j: int| i <= j < rules.len() ==> (#[trigger] rules[j]).0 != key,
            decreases i,
        {
            i = i - 1;
            if holds_at(&self.replace_map[i].0, text, pos, n) {
                proof {
                    lemma_map_of_last_rule(rules, key, i as int);
                }
                return Some(i);
            }
        }
        proof {
            lemma_map_of_keys(rules, key);
        }
        None
    }

    /// Finds the longest key that `text` holds at `pos`: its length and
    /// the place of its rule.
    fn longest(&self, text: &Vec<char>, pos: usize) -> (hit: Option<(usize, usize)>)
        requires
            pos < text.len(),
        ensures
            match hit {
                Some((n, i)) => {
                    &&& n == longest_match(self@, text@.skip(pos as int), (text.len() - pos) as nat)
                    &&& 1 <= n <= text.len() - pos
                    &&& i < self.replace_map.len()
                    &&& self@[text@.skip(pos as int).take(n as int)] == self.replace_map[i as int].1@
                },
                None => longest_match(self@, text@.skip(pos as int), (text.len() - pos) as nat)
                    == 0,
            },
    {
        let ghost rest = text@.skip(pos as int);
        let remaining: usize = text.len() - pos;
        let mut n: usize = if remaining < self.key_len_max {
            remaining
        } else {
            self.key_len_max
        };
        proof {
            use_type_invariant(self);
            if n < remaining {
                let rules = rules_view(self.replace_map@);
                assert forall|j: int| 0 <= j < rules.len() implies (#[trigger] rules[j]).0.len()
                    <= n by {
                    assert(self.replace_map@[j].0@.len() <= self.key_len_max);
                }
                lemma_longest_match_bounded(rules, rest, remaining as nat, n as nat);
            }
        }
        while n > 0
            invariant
                pos < text.len(),
                rest == text@.skip(pos as int),
                remaining == text.len() - pos,
                n <= remaining,
                longest_match(self@, rest, remaining as nat) == longest_match(self@, rest, n as nat),
            decreases n,
        {
            assert(rest.take(n as int) =~= text@.subrange(pos as int, pos + n));
            match self.find(text, pos, n) {
                Some(i) => {
                    return Some((n, i));
                },
                None => {},
            }
            n = n - 1;
        }
        None
    }

    /// Converts `string` to the other script: brings it into
    /// Normalization Form C and replaces, from left to right, the longest
    /// key found at each place; what matches no key stays as it is.
    pub fn convert(&self, string: &str) -> (converted: String)
        ensures
            converted@ == transliterate(self@, nfc_of(string@)),
    {
        let text = nfc_chars(string);
        let mut out: Vec<char> = Vec::new();
        let mut pos: usize = 0;
        assert(text@.skip(0) =~= text@);
        assert(out@ + transliterate(self@, text@) =~= transliterate(self@, text@));
        while pos < text.len()
            invariant
                pos <= text.len(),
                out@ + transliterate(self@, text@.skip(pos as int)) == transliterate(self@, text@),
            decreases text.len() - pos,
        {
            let ghost rest = text@.skip(pos as int);
            match self.longest(&text, pos) {
                Some((n, i)) => {
                    let ghost before = out@;
                    append_chars(&mut out, &self.replace_map[i].1);
                    assert(rest.skip(n as int) =~= text@.skip(pos + n));
                    assert(out@ + transliterate(self@, text@.skip(pos + n)) =~= before
                        + transliterate(self@, rest));
                    pos = pos + n;
                },
                None => {
                    let ghost before = out@;
                    out.push(text[pos]);
                    assert(rest.skip(1) =~= text@.skip(pos + 1));
                    assert(out@ + transliterate(self@, text@.skip(pos + 1)) =~= before
                        + transliterate(self@, rest));
                    pos = pos + 1;
                },
            }
        }
        assert(text@.skip(text.len() as int) =~= Seq::<char>::empty());
        assert(out@ =~= transliterate(self@, text@));
        string_of(&out)
    }
}

pub const SIGNS_CAPITAL: [(&'static str, &'static str); 2] = [("ʹ", "Ь"), ("ʺ", "Ъ")];

pub const SIGNS_SMALL: [(&'static str, &'static str); 2] = [("ʹ", "ь"), ("ʺ", "ъ")];

pub const SIGNS_TO_LATIN: [(&'static str, &'static str); 2] = [("Ъ", "ʺ"), ("Ь", "ʹ")];

pub const HOOKS_CEDILLA: [(&'static str, &'static str); 16] = [
    ("Җ", "Ž̧"), ("җ", "ž̧"),
    ("Қ", "Ķ"), ("қ", "ķ"),
    ("Ԡ", "Ļ"), ("ԡ", "ļ"),
    ("Ң", "Ņ"), ("ң", "ņ"),
    ("Ҫ", "Ş"), ("ҫ", "ş"),
    ("Ҭ", "Ţ"), ("ҭ", "ţ"),
    ("Ҳ", "Ḩ"), ("ҳ", "ḩ"),
    ("Ҷ", "Ç"), ("ҷ", "ç"),
];

pub const HOOKS_COMMA_BELOW: [(&'static str, &'static str); 16] = [
    ("Җ", "Ž̦"), ("җ", "ž̦"),
    ("Қ", "K̦"), ("қ", "k̦"),
    ("Ԡ", "L̦"), ("ԡ", "l̦"),
    ("Ң", "N̦"), ("ң", "n̦"),
    ("Ҫ", "Ș"), ("ҫ", "ș"),
    ("Ҭ", "Ț"), ("ҭ", "ț"),
    ("Ҳ", "H̦"), ("ҳ", "h̦"),
    ("Ҷ", "C̦"), ("ҷ", "c̦"),
];

pub const TO_CYRILLIC: [(&'static str, &'static str); 269] = [
    ("A", "А"), ("a", "а"),
    ("Ä", "Ӓ"), ("ä", "ӓ"),
    ("Ạ̈", "Ӓ̄"), ("ạ̈", "ӓ̄"),
    ("Ă", "Ӑ"), ("ă", "ӑ"),
    ("Ā", "А̄"), ("ā", "а̄"),
    ("Æ", "Ӕ"), ("æ", "ӕ"),
    ("Á", "А́"), ("á", "а́"),
    ("Å", "А̊"), ("å", "а̊"),
    ("B", "Б"), ("b", "б"),
    ("V", "В"), ("v", "в"),
    ("G", "Г"), ("g", "г"),
    ("Ǵ", "Ѓ"), ("ǵ", "ѓ"),
    ("Ġ", "Ғ"), ("ġ", "ғ"),
    ("Ğ", "Ҕ"), ("ğ", "ҕ"),
    ("Ḥ", "Һ"), ("ḥ", "һ"),
    ("D", "Д"), ("d", "д"),
    ("Đ", "Ђ"), ("đ", "ђ"),
    ("E", "Е"), ("e", "е"),
    ("Ĕ", "Ӗ"), ("ĕ", "ӗ"),
    ("Ë", "Ё"), ("ë", "ё"),
    ("Ê", "Є"), ("ê", "є"),
    ("Ž", "Ж"), ("ž", "ж"),
    ("Ž̦", "Җ"), ("ž̦", "җ"),
    ("Ž̧", "Җ"), ("ž̧", "җ"),
    ("Z̄", "Ӝ"), ("z̄", "ӝ"),
    ("Z̆", "Ӂ"), ("z̆", "ӂ"),
    ("Z", "З"), ("z", "з"),
    ("Z̈", "Ӟ"), ("z̈", "ӟ"),
    ("Ź", "Ӡ"), ("ź", "ӡ"),
    // not part of ISO 9
    ("Ð", "Ҙ"), ("ð", "ҙ"),
    ("Ẑ", "Ѕ"), ("ẑ", "ѕ"),
    ("I", "И"), ("i", "и"),
    ("Ī", "Ӣ"), ("ī", "ӣ"),
    ("Í", "И́"), ("í", "и́"),
    ("Î", "Ӥ"), ("î", "ӥ"),
    ("J", "Й"), ("j", "й"),
    ("Ì", "І"), ("ì", "і"),
    ("Ï", "Ї"), ("ï", "ї"),
    ("Ǐ", "І̄"), ("ǐ", "і̄"),
    ("J̌", "Ј"), ("ǰ", "ј"),
    ("J́", "Ј̵"), ("j́", "ј̵"),
    ("K", "К"), ("k", "к"),
    ("Ḱ", "Ќ"), ("ḱ", "ќ"),
    ("Ḳ", "Ӄ"), ("ḳ", "ӄ"),
    ("K̂", "Ҝ"), ("k̂", "ҝ"),
    ("Ǩ", "Ҡ"), ("ǩ", "ҡ"),
    ("K̄", "Ҟ"), ("k̄", "ҟ"),
    ("K̦", "Қ"), ("k̦", "қ"),
    ("Ķ", "Қ"), ("ķ", "қ"),
    ("K̀", "К̨"), ("k̀", "к̨"),
    ("Q", "Ԛ"), ("q", "ԛ"),
    ("L", "Л"), ("l", "л"),
    ("L̂", "Љ"), ("l̂", "љ"),
    ("Ĺ", "Л’"), ("ĺ", "л’"),
    ("L̦", "Ԡ"), ("l̦", "ԡ"),
    ("Ļ", "Ԡ"), ("ļ", "ԡ"),
    ("M", "М"), ("m", "м"),
    ("N", "Н"), ("n", "н"),
    ("N̂", "Њ"), ("n̂", "њ"),
    ("N̦", "Ң"), ("n̦", "ң"),
    ("Ņ", "Ң"), ("ņ", "ң"),
    ("Ṇ", "Ӊ"), ("ṇ", "ӊ"),
    ("Ṅ", "Ҥ"), ("ṅ", "ҥ"),
    ("Ǹ", "Ԋ"), ("ǹ", "ԋ"),
    ("Ń", "Ԣ"), ("ń", "ԣ"),
    ("Ň", "Ӈ"), ("ň", "ӈ"),
    ("N̄", "Н̄"), ("n̄", "н̄"),
    ("O", "О"), ("o", "о"),
    ("Ö", "Ӧ"), ("ö", "ӧ"),
    ("Ô", "Ө"), ("ô", "ө"),
    ("Ő", "Ӫ"), ("ő", "ӫ"),
    ("Ọ̈", "Ӧ̄"), ("ọ̈", "о̄̈"),
    ("Ò", "Ҩ"), ("ò", "ҩ"),
    ("Ó", "О́"), ("ó", "о́"),
    ("Ō", "О̄"), ("ō", "о̄"),
    ("Œ", "Œ"), ("œ", "œ"),
    ("P", "П"), ("p", "п"),
    ("Ṕ", "Ҧ"), ("ṕ", "ҧ"),
    ("P̀", "Ԥ"), ("p̀", "ԥ"),
    ("R", "Р"), ("r", "р"),
    ("S", "С"), ("s", "с"),
    ("Ș", "Ҫ"), ("ș", "ҫ"),
    ("Ş", "Ҫ"), ("ş", "ҫ"),
    ("S̀", "С̀"), ("s̀", "с̀"),
    ("T", "Т"), ("t", "т"),
    ("Ć", "Ћ"), ("ć", "ћ"),
    ("T̀", "Ԏ"), ("t̀", "ԏ"),
    ("Ť", "Т̌"), ("ť", "т̌"),
    ("Ț", "Ҭ"), ("ț", "ҭ"),
    ("Ţ", "Ҭ"), ("ţ", "ҭ"),
    ("U", "У"), ("u", "у"),
    ("Ü", "Ӱ"), ("ü", "ӱ"),
    ("Ū", "Ӯ"), ("ū", "ӯ"),
    ("Ŭ", "Ў"), ("ŭ", "ў"),
    ("Ű", "Ӳ"), ("ű", "ӳ"),
    ("Ú", "У́"), ("ú", "у́"),
    ("Ụ̈", "Ӱ̄"), ("ụ̈", "ӱ̄"),
    ("Ù", "Ү"), ("ù", "ү"),
    ("U̇", "Ұ"), ("u̇", "ұ"),
    ("W", "Ԝ"), ("w", "ԝ"),
    ("F", "Ф"), ("f", "ф"),
    ("H", "Х"), ("h", "х"),
    ("H̦", "Ҳ"), ("h̦", "ҳ"),
    ("Ḩ", "Ҳ"), ("ḩ", "ҳ"),
    ("C", "Ц"), ("c", "ц"),
    ("C̄", "Ҵ"), ("c̄", "ҵ"),
    ("D̂", "Џ"), ("d̂", "џ"),
    ("Č", "Ч"), ("č", "ч"),
    ("C̦", "Ҷ"), ("c̦", "ҷ"),
    ("Ç", "Ҷ"), ("ç", "ҷ"),
    ("C̣", "Ӌ"), ("c̣", "ӌ"),
    ("C̈", "Ӵ"), ("c̈", "ӵ"),
    ("Ĉ", "Ҹ"), ("ĉ", "ҹ"),
    ("C̀", "Ч̀"), ("c̀", "ч̀"),
    ("C̆", "Ҽ"), ("c̆", "ҽ"),
    ("C̨̆", "Ҿ"), ("c̨̆", "ҿ"),
    ("Š", "Ш"), ("š", "ш"),
    ("Ŝ", "Щ"), ("ŝ", "щ"),
    ("ʺ", "ъ"),
    ("Y", "Ы"), ("y", "ы"),
    ("Ÿ", "Ӹ"), ("ÿ", "ӹ"),
    ("Ȳ", "Ы̄"), ("ȳ", "ы̄"),
    ("ʹ", "ь"),
    ("È", "Э"), ("è", "э"),
    ("A̋", "Ә"), ("a̋", "ә"),
    ("À", "Ӛ"), ("à", "ӛ"),
    ("Û", "Ю"), ("û", "ю"),
    ("Û̄", "Ю̄"), ("û̄", "ю̄"),
    ("Â", "Я"), ("â", "я"),
    ("G̀", "Ґ"), ("g̀", "ґ"),
    ("Ě", "Ѣ"), ("ě", "ѣ"),
    ("Ǎ", "Ѫ"), ("ǎ", "ѫ"),
    ("F̀", "Ѳ"), ("f̀", "ѳ"),
    ("Ỳ", "Ѵ"), ("ỳ", "ѵ"),
    ("‡", "Ӏ"),
    ("`", "ʼ"),
    ("¨", "ˮ"),
];

} // verus!
