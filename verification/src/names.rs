//! Display names for the competitors, by identifier.

use std::collections::HashMap;
use vstd::prelude::*;
use vstd::std_specs::hash::*;

verus! {

broadcast use group_hash_axioms;

/// What a list of names holds, name by name.
pub open spec fn texts_of(names: Seq<String>) -> Seq<Seq<char>> {
    Seq::new(names.len(), |i: int| names[i]@)
}

/// What a map of names holds, identifier by identifier.
pub open spec fn name_texts(names: Map<usize, String>) -> Map<usize, Seq<char>> {
    Map::new(|id: usize| names.contains_key(id), |id: usize| names[id]@)
}

/// The names of a list by identifier: the first name is that of competitor
/// 1, the next that of competitor 2, and so on.
pub open spec fn listed_names(names: Seq<Seq<char>>) -> Map<usize, Seq<char>> {
    Map::new(|id: usize| 1 <= id <= names.len(), |id: usize| names[id - 1])
}

/// The competitors `1 ..= team_num`, each named by its own number.
pub open spec fn numbered_names(team_num: usize) -> Map<usize, Seq<char>> {
    Map::new(|id: usize| 1 <= id <= team_num, |id: usize| decimal_text(id as nat))
}

/// The name under which `id` is shown: its entry in the map, or the empty
/// text where the map has none.
pub open spec fn name_text(names: Map<usize, Seq<char>>, id: usize) -> Seq<char> {
    if names.contains_key(id) {
        names[id]
    } else {
        Seq::empty()
    }
}

/// The character that writes the digit `d`.
pub open spec fn digit_char(d: nat) -> char {
    if d == 0 {
        '0'
    } else if d == 1 {
        '1'
    } else if d == 2 {
        '2'
    } else if d == 3 {
        '3'
    } else if d == 4 {
        '4'
    } else if d == 5 {
        '5'
    } else if d == 6 {
        '6'
    } else if d == 7 {
        '7'
    } else if d == 8 {
        '8'
    } else {
        '9'
    }
}

/// The number `n` written in decimal digits, without leading zeros.
pub open spec fn decimal_text(n: nat) -> Seq<char>
    decreases n,
{
    if n < 10 {
        seq![digit_char(n)]
    } else {
        decimal_text(n / 10).push(digit_char(n % 10))
    }
}

/// The digit `d` as a text of one character.
fn digit_text(d: usize) -> (text: &'static str)
    requires
        d < 10,
    ensures
        text@ == seq![digit_char(d as nat)],
{
    proof {
        reveal_strlit("0");
        reveal_strlit("1");
        reveal_strlit("2");
        reveal_strlit("3");
        reveal_strlit("4");
        reveal_strlit("5");
        reveal_strlit("6");
        reveal_strlit("7");
        reveal_strlit("8");
        reveal_strlit("9");
    }
    let text = if d == 0 {
        "0"
    } else if d == 1 {
        "1"
    } else if d == 2 {
        "2"
    } else if d == 3 {
        "3"
    } else if d == 4 {
        "4"
    } else if d == 5 {
        "5"
    } else if d == 6 {
        "6"
    } else if d == 7 {
        "7"
    } else if d == 8 {
        "8"
    } else {
        "9"
    };
    assert(text@ =~= seq![digit_char(d as nat)]);
    text
}

/// Writes `n` in decimal digits.
pub fn decimal_string(n: usize) -> (text: String)
    ensures
        text@ == decimal_text(n as nat),
    decreases n,
{
    if n < 10 {
        String::from_str(digit_text(n))
    } else {
        let mut text = decimal_string(n / 10);
        text.append(digit_text(n % 10));
        text
    }
}

/// Names the competitors `1 ..= team_num` by their own numbers.
pub fn create_number_map(team_num: usize) -> (map: HashMap<usize, String>)
    ensures
        name_texts(map@) == numbered_names(team_num),
{
    let mut map: HashMap<usize, String> = HashMap::new();
    let mut id: usize = 0;
    while id < team_num
        invariant
            id <= team_num,
            forall|k: usize| map@.contains_key(k) <==> 1 <= k <= id,
            forall|k: usize| 1 <= k <= id ==> (#[trigger] map@[k])@ == decimal_text(k as nat),
        decreases team_num - id,
    {
        id += 1;
        map.insert(id, decimal_string(id));
    }
    assert(name_texts(map@) =~= numbered_names(team_num));
    map
}

/// Names the competitors by a list of names: the first name is that of
/// competitor 1, the next that of competitor 2, and so on.
pub fn create_name_map(names: Vec<String>) -> (map: HashMap<usize, String>)
    ensures
        name_texts(map@) == listed_names(texts_of(names@)),
{
    let mut map: HashMap<usize, String> = HashMap::new();
    let mut i: usize = 0;
    while i < names.len()
        invariant
            i <= names@.len(),
            forall|k: usize| map@.contains_key(k) <==> 1 <= k <= i,
            forall|k: usize| 1 <= k <= i ==> #[trigger] map@[k] == names@[k - 1],
        decreases names@.len() - i,
    {
        let name = names[i].clone();
        i += 1;
        map.insert(i, name);
    }
    assert(name_texts(map@) =~= listed_names(texts_of(names@)));
    map
}

/// The name under which `id` is shown: its entry in the map, or the empty
/// text where the map has none.
pub fn team_name(map: &HashMap<usize, String>, id: usize) -> (name: String)
    ensures
        name@ == name_text(name_texts(map@), id),
{
    match map.get(&id) {
        Some(found) => found.clone(),
        None => String::new(),
    }
}

} // verus!
