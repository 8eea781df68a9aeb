use workshop::elves::{count_finds, elf_counter, tally, ElfCount};

#[test]
fn elves_in_a_sentence() {
    let text = "The mischievous elf peeked out from behind the toy workshop,
      and another elf joined in the festive dance.
      Look, there is also an elf on that shelf!";
    let count = elf_counter(text.to_string());
    assert_eq!(count, ElfCount { elf: 4, elf_on_a_shelf: 0, shelf_with_no_elf: 1 });
}

#[test]
fn elves_on_and_off_shelves() {
    let text = "there is an elf on a shelf on an elf.
      there is also another shelf in Belfast.";
    let count = elf_counter(text.to_string());
    assert_eq!(count, ElfCount { elf: 5, elf_on_a_shelf: 1, shelf_with_no_elf: 1 });
}

#[test]
fn elves_on_shelves_that_overlap() {
    let count = elf_counter("elf on a shelf on a shelf on a shelf".to_string());
    assert_eq!(count, ElfCount { elf: 4, elf_on_a_shelf: 3, shelf_with_no_elf: 0 });
}

#[test]
fn nothing_in_an_empty_text() {
    assert_eq!(elf_counter(String::new()), ElfCount { elf: 0, elf_on_a_shelf: 0, shelf_with_no_elf: 0 });
}

#[test]
fn tally_takes_the_sightings_as_given() {
    assert_eq!(
        tally("shelf shelf elf", 1),
        ElfCount { elf: 3, elf_on_a_shelf: 1, shelf_with_no_elf: 1 }
    );
    assert_eq!(
        tally("shelf shelf elf", 5),
        ElfCount { elf: 3, elf_on_a_shelf: 5, shelf_with_no_elf: 0 }
    );
    assert_eq!(tally("", 0), ElfCount { elf: 0, elf_on_a_shelf: 0, shelf_with_no_elf: 0 });
}

#[test]
fn finds_do_not_overlap() {
    assert_eq!(count_finds("aaaa", "aa"), 2);
    assert_eq!(count_finds("aaaaa", "aa"), 2);
    assert_eq!(count_finds("abababa", "aba"), 2);
    assert_eq!(count_finds("elfelf", "elf"), 2);
    assert_eq!(count_finds("el", "elf"), 0);
    assert_eq!(count_finds("", "elf"), 0);
    assert_eq!(count_finds("elf", "elf"), 1);
    assert_eq!(count_finds("ELF Elf elF", "elf"), 0);
    assert_eq!(count_finds("élfe elf ëlf", "elf"), 1);
}

#[test]
fn an_empty_word_is_never_found() {
    assert_eq!(count_finds("abc", ""), 0);
    assert_eq!(count_finds("", ""), 0);
}

#[test]
fn finds_agree_with_the_standard_search() {
    let texts = ["", "elf", "shelf", "selfelfshelf elf", "aaaaaaa", "abcabcabcab", "xxélfxxelfxx", "shshelfelf"];
    let words = ["elf", "shelf", "a", "aa", "aaa", "abc", "bca", "x", "sh", "é"];
    for text in texts {
        for word in words {
            assert_eq!(count_finds(text, word), text.matches(word).count(), "{:?} in {:?}", word, text);
        }
    }
}
