use dict_walker::model_def::ModelDef;
use dict_walker::phonemes::render_phonemes;
use dict_walker::phonemes::Phoneme;
use dict_walker::sequence_model::assemble;
use dict_walker::sequence_model::join_parts;
use dict_walker::sequence_model::split_parts;
use dict_walker::sequence_model::SequenceModel;

fn strings(items: &[&str]) -> Vec<String> {
    items.iter().map(|s| String::from(*s)).collect()
}

fn model(max_out_length: usize) -> SequenceModel {
    SequenceModel::new(ModelDef {
        name: String::from("g2p"),
        in_tokens: strings(&["a", "b", "ž"]),
        out_tokens: strings(&["A", "B", "Z2"]),
        max_in_length: 4,
        max_out_length,
    })
}

/// A decoder that writes the symbols at the given places, one for each
/// step, and then the end symbol for ever. Its levels are no one-hot steps.
struct Stub {
    places: Vec<usize>,
    step: usize,
    fed: Vec<Vec<i32>>,
}

impl Stub {
    fn decode(&mut self, last: Vec<i32>, end: usize) -> Vec<i32> {
        self.fed.push(last);
        let place = if self.step < self.places.len() { self.places[self.step] } else { end };
        self.step += 1;
        let mut levels = vec![-3; end + 1];
        levels[place] = 8;
        levels
    }
}

fn run(model: &SequenceModel, places: &[usize]) -> (Vec<Phoneme>, Stub) {
    let end = model.output_width() - 1;
    let mut stub = Stub { places: places.to_vec(), step: 0, fed: Vec::new() };
    let mut decoding = model.begin_decoding();
    let mut steps = 0;
    while !decoding.is_finished() {
        let levels = stub.decode(model.next_input(&decoding), end);
        let goes_on = model.advance(&mut decoding, &levels);
        assert_eq!(goes_on, !decoding.is_finished());
        steps += 1;
        assert!(steps <= 1000);
    }
    (model.phonemes_of(&decoding), stub)
}

#[test]
fn the_output_vocabulary_ends_with_start_and_end() {
    let model = model(10);
    assert_eq!(model.input_width(), 3);
    assert_eq!(model.output_width(), 5);
}

#[test]
fn decoding_ends_at_the_end_symbol() {
    let model = model(10);
    let (phonemes, stub) = run(&model, &[0, 2, 1]);
    assert_eq!(render_phonemes(&phonemes), "[A][Z2][B]");
    assert_eq!(stub.step, 4);
}

#[test]
fn decoding_ends_at_the_limit() {
    let model = model(3);
    let (phonemes, stub) = run(&model, &[0, 1, 0, 1, 0, 1, 0, 1]);
    assert_eq!(render_phonemes(&phonemes), "[A][B][A]");
    assert_eq!(stub.step, 3);
}

#[test]
fn an_end_symbol_at_the_limit_is_not_kept() {
    let model = model(2);
    let (phonemes, stub) = run(&model, &[1]);
    assert_eq!(render_phonemes(&phonemes), "[B]");
    assert_eq!(stub.step, 2);
}

#[test]
fn a_limit_of_zero_decodes_nothing() {
    let model = model(0);
    let decoding = model.begin_decoding();
    assert!(decoding.is_finished());
    assert_eq!(model.phonemes_of(&decoding).len(), 0);
}

#[test]
fn an_immediate_end_gives_no_phonemes() {
    let model = model(5);
    let (phonemes, stub) = run(&model, &[]);
    assert_eq!(phonemes.len(), 0);
    assert_eq!(stub.step, 1);
}

#[test]
fn the_last_output_is_fed_back_one_hot() {
    let model = model(10);
    let (_, stub) = run(&model, &[2, 0]);
    assert_eq!(stub.fed, vec![vec![0, 0, 0, 1, 0], vec![0, 0, 1, 0, 0], vec![1, 0, 0, 0, 0]]);
}

#[test]
fn a_finished_decoding_stays_as_it_is() {
    let model = model(1);
    let mut decoding = model.begin_decoding();
    assert!(!model.advance(&mut decoding, &vec![0, 9, 0, 0, 0]));
    assert!(!model.advance(&mut decoding, &vec![9, 0, 0, 0, 0]));
    assert_eq!(render_phonemes(&model.phonemes_of(&decoding)), "[B]");
}

#[test]
fn a_written_start_symbol_is_an_unknown_phoneme() {
    let model = model(5);
    let (phonemes, _) = run(&model, &[3, 0]);
    assert_eq!(phonemes.len(), 2);
    assert!(!phonemes[0].valid);
    assert_eq!(phonemes[0].symbol, "ERR-\t");
    assert_eq!(phonemes[1].symbol, "A");
}

#[test]
fn the_input_is_encoded_up_to_the_input_limit() {
    let model = model(10);
    assert_eq!(
        model.input_tensor("bža"),
        Some(vec![vec![0, 1, 0], vec![0, 0, 1], vec![1, 0, 0], vec![0, 0, 0]])
    );
    assert_eq!(
        model.input_tensor(""),
        Some(vec![vec![0, 0, 0], vec![0, 0, 0], vec![0, 0, 0], vec![0, 0, 0]])
    );
    assert!(model.input_tensor("abab").is_some());
}

#[test]
fn a_word_that_the_model_cannot_read_is_declined() {
    let model = model(10);
    assert_eq!(model.input_tensor("abc"), None);
    assert_eq!(model.input_tensor("A"), None);
    assert_eq!(model.input_tensor("ababa"), None);
    assert_eq!(model.input_tensor("a b"), None);
}

#[test]
fn words_are_parted_at_the_pause_marker() {
    assert_eq!(split_parts("labas"), vec!["labas"]);
    assert_eq!(split_parts("a[midwordpause]b"), vec!["a", "b"]);
    assert_eq!(split_parts("a[midwordpause]b[midwordpause]"), vec!["a", "b", ""]);
    assert_eq!(split_parts("a[MIDWORDPAUSE]b"), vec!["a[MIDWORDPAUSE]b"]);
    assert_eq!(split_parts(""), vec![""]);
}

#[test]
fn a_word_is_run_part_by_part_if_the_model_reads_every_part() {
    let model = model(10);
    assert_eq!(model.readable_parts("ab"), Some(strings(&["ab"])));
    assert_eq!(model.readable_parts("ab[midwordpause]ž"), Some(strings(&["ab", "ž"])));
    assert_eq!(model.readable_parts("ab[midwordpause]"), Some(strings(&["ab", ""])));
    assert_eq!(model.readable_parts("ab[midwordpause]c"), None);
    assert_eq!(model.readable_parts("x[midwordpause]a"), None);
    assert_eq!(model.readable_parts("a[MIDWORDPAUSE]b"), None);
    assert_eq!(model.readable_parts("ababa"), None);
    assert_eq!(model.readable_parts("abab[midwordpause]baba"), Some(strings(&["abab", "baba"])));
}

#[test]
fn parts_are_joined_with_a_pause() {
    let a = vec![Phoneme::from_symbol("A", false)];
    let b = vec![Phoneme::from_symbol("B", false), Phoneme::from_symbol("A", false)];
    let joined = join_parts(&vec![Some(a.clone()), Some(b.clone()), Some(a.clone())]).unwrap();
    assert_eq!(render_phonemes(&joined), "[A][MIDWORDPAUSE][B][A][MIDWORDPAUSE][A]");
    assert_eq!(joined[1].ordinal, 47);
    assert_eq!(render_phonemes(&join_parts(&vec![Some(b.clone())]).unwrap()), "[B][A]");
    assert_eq!(render_phonemes(&join_parts(&vec![Some(Vec::new()), Some(a.clone())]).unwrap()), "[MIDWORDPAUSE][A]");
    assert_eq!(join_parts(&Vec::new()).unwrap().len(), 0);
}

#[test]
fn a_part_without_answer_leaves_the_word_without() {
    let a = vec![Phoneme::from_symbol("A", false)];
    assert!(join_parts(&vec![Some(a.clone()), None, Some(a.clone())]).is_none());
    assert!(join_parts(&vec![None]).is_none());
    assert!(join_parts(&vec![Some(a), None]).is_none());
}

#[test]
fn a_whole_output_is_assembled_without_its_first_and_last_symbol() {
    assert_eq!(render_phonemes(&assemble(&strings(&["\t", "L", "A", "qq", "\n"]))), "[L][A][ERR-qq]");
    assert_eq!(assemble(&strings(&["\t", "\n"])).len(), 0);
    assert_eq!(assemble(&strings(&["\t"])).len(), 0);
    assert_eq!(assemble(&Vec::new()).len(), 0);
    assert_eq!(render_phonemes(&assemble(&strings(&["A", "B", "A"]))), "[B]");
}
