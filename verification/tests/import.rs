use tag_model::import::name::BasicName;
use tag_model::import::principal::TitlePrincipal;
use tag_model::import::title::BasicTitle;
use tag_model::import::utils::{
    chunk_size, decimal_string, define_table, plan_chunks, split_by_comma, Row, MIN_CHUNK_SIZE,
};
use tag_model::import::{relation, table};
use tag_model::parse;

fn strings(items: &[&str]) -> Vec<String> {
    items.iter().map(|s| s.to_string()).collect()
}

#[test]
fn split_by_comma_matches_std() {
    for text in ["", ",", "a", "a,b", "a,,b", ",a", "a,", ",,", "Drama,Crime,Thriller", "é,ü,,日本", "no commas here"] {
        let expected: Vec<String> = text.split(',').map(|x| x.to_owned()).collect();
        assert_eq!(split_by_comma(text), expected, "{:?}", text);
    }
}

#[test]
fn split_by_comma_exact_pieces() {
    assert_eq!(split_by_comma(""), strings(&[""]));
    assert_eq!(split_by_comma("Drama"), strings(&["Drama"]));
    assert_eq!(split_by_comma("Drama,Crime"), strings(&["Drama", "Crime"]));
    assert_eq!(split_by_comma("a,,b,"), strings(&["a", "", "b", ""]));
}

#[test]
fn decimal_string_matches_std() {
    for n in [0u16, 1, 9, 10, 11, 99, 100, 101, 999, 1000, 9999, 10000, 12345, 65535] {
        assert_eq!(decimal_string(n), n.to_string());
    }
}

#[test]
fn chunk_size_has_a_floor() {
    assert_eq!(MIN_CHUNK_SIZE, 10000);
    assert_eq!(chunk_size(0, 1), 10000);
    assert_eq!(chunk_size(10000, 1), 10000);
    assert_eq!(chunk_size(10001, 1), 10001);
    assert_eq!(chunk_size(100000, 16), 10000);
    assert_eq!(chunk_size(1600000, 16), 100000);
    assert_eq!(chunk_size(1600015, 16), 100000);
    assert_eq!(chunk_size(usize::MAX, 1), usize::MAX);
}

fn title_record() -> parse::title::Record {
    parse::title::Record {
        tconst: "tt0113277".into(),
        title_type: "movie".into(),
        primary_title: "Heat".into(),
        original_title: "Heat".into(),
        is_adult: false,
        start_year: 1995,
        end_year: 0,
        runtime_minutes: 170,
        genres: "Action,Crime,Drama".into(),
    }
}

#[test]
fn a_title_is_its_record_with_genres_split() {
    let title = BasicTitle::from(title_record());
    assert_eq!(title.tconst, "tt0113277");
    assert_eq!(title.title_type, "movie");
    assert_eq!(title.primary_title, "Heat");
    assert_eq!(title.original_title, "Heat");
    assert!(!title.is_adult);
    assert_eq!(title.start_year, 1995);
    assert_eq!(title.end_year, 0);
    assert_eq!(title.runtime_minutes, 170);
    assert_eq!(title.genres, strings(&["Action", "Crime", "Drama"]));
    assert_eq!(title.get_id(), "tt0113277");
}

#[test]
fn a_title_without_genres_has_one_empty_genre() {
    let mut record = title_record();
    record.genres = String::new();
    assert_eq!(BasicTitle::from(record).genres, strings(&[""]));
}

#[test]
fn a_name_is_its_record_with_lists_split() {
    let name = BasicName::from(parse::name::Record {
        nconst: "nm0000134".into(),
        primary_name: "Robert De Niro".into(),
        birth_year: 1943,
        death_year: 0,
        primary_profession: "actor,producer".into(),
        known_for_titles: "tt0113277".into(),
    });
    assert_eq!(name.nconst, "nm0000134");
    assert_eq!(name.primary_name, "Robert De Niro");
    assert_eq!(name.birth_year, 1943);
    assert_eq!(name.death_year, 0);
    assert_eq!(name.primary_profession, strings(&["actor", "producer"]));
    assert_eq!(name.known_for_titles, strings(&["tt0113277"]));
    assert_eq!(name.get_id(), "nm0000134");
}

#[test]
fn a_principal_is_its_record() {
    let principal = TitlePrincipal::from(parse::principal::Record {
        tconst: "tt0113277".into(),
        ordering: 12,
        nconst: "nm0000134".into(),
        category: "actor".into(),
        job: None,
        characters: strings(&["Neil McCauley"]),
    });
    assert_eq!(principal.tconst, "tt0113277");
    assert_eq!(principal.ordering, 12);
    assert_eq!(principal.nconst, "nm0000134");
    assert_eq!(principal.category, "actor");
    assert_eq!(principal.job, None);
    assert_eq!(principal.characters, strings(&["Neil McCauley"]));
    assert_eq!(principal.get_id(), "tt0113277-12-nm0000134");
    assert_eq!(principal.get_id(), format!("{}-{}-{}", principal.tconst, principal.ordering, principal.nconst));
}

#[test]
fn tables_and_relations_have_their_names() {
    assert_eq!(table::TITLE, "title");
    assert_eq!(table::NAME, "name");
    assert_eq!(relation::KNOWN_FOR, "known_for");
    assert_eq!(relation::HAS_PRINCIPAL, "has_principal");
    assert_eq!(define_table("title"), "DEFINE title DROP SCHEMALESS");
    assert_eq!(define_table(""), "DEFINE  DROP SCHEMALESS");
}

#[test]
fn few_rows_make_one_chunk() {
    assert_eq!(plan_chunks(0, 4), vec![(0, 0)]);
    assert_eq!(plan_chunks(1, 4), vec![(0, 1)]);
    assert_eq!(plan_chunks(10000, 4), vec![(0, 10000)]);
    assert_eq!(plan_chunks(40000, 4), vec![(0, 10000), (10000, 20000), (20000, 30000), (30000, 40000)]);
}

#[test]
fn chunks_are_cut_as_slices_are() {
    for (total, workers) in [(10001, 1), (10001, 4), (25000, 8), (100000, 3), (100001, 3), (1234567, 16), (20000, 1)] {
        let rows: Vec<usize> = (0..total).collect();
        let size = chunk_size(total, workers);
        let expected: Vec<(usize, usize)> = if total > size {
            rows.chunks(size).map(|c| (c[0], c[c.len() - 1] + 1)).collect()
        } else {
            vec![(0, total)]
        };
        assert_eq!(plan_chunks(total, workers), expected, "{} rows, {} workers", total, workers);
    }
}

#[test]
fn known_for_statements_relate_each_title() {
    let mut name = BasicName::from(parse::name::Record {
        nconst: "nm1".into(),
        primary_name: "A".into(),
        birth_year: 0,
        death_year: 0,
        primary_profession: "".into(),
        known_for_titles: "tt1,tt2".into(),
    });
    assert_eq!(
        name.known_for_statements().unwrap(),
        "RELATE name:nm1 -> known_for -> title:tt1;\nRELATE name:nm1 -> known_for -> title:tt2;"
    );
    name.known_for_titles = strings(&["tt9"]);
    assert_eq!(name.known_for_statements().unwrap(), "RELATE name:nm1 -> known_for -> title:tt9;");
    name.known_for_titles = vec![];
    assert_eq!(name.known_for_statements(), None);
}

#[test]
fn principal_statement_carries_the_content() {
    let principal = TitlePrincipal::from(parse::principal::Record {
        tconst: "tt1".into(),
        ordering: 2,
        nconst: "nm3".into(),
        category: "actor".into(),
        job: Some("lead".into()),
        characters: vec![],
    });
    assert_eq!(
        principal.relate_statement("{\"ordering\":2}"),
        "RELATE title:tt1 -> has_principal -> name:nm3 CONTENT {\"ordering\":2};"
    );
}

#[test]
fn a_person_is_known_by_any_title() {
    let record = |titles: &str| parse::name::Record {
        nconst: "nm1".into(),
        primary_name: "A".into(),
        birth_year: 0,
        death_year: 0,
        primary_profession: "".into(),
        known_for_titles: titles.into(),
    };
    let year: std::collections::HashSet<String> = ["tt2", "tt5"].iter().map(|s| s.to_string()).collect();
    let known = |title: &String| year.contains(title);
    assert!(record("tt1,tt2,tt3").knows_any(&known));
    assert!(record("tt5").knows_any(&known));
    assert!(!record("tt1,tt3").knows_any(&known));
    assert!(!record("").knows_any(&known));
    assert!(!record("tt2 ,tt55").knows_any(&known));
    let asked = std::cell::RefCell::new(Vec::new());
    assert!(record("tt1,tt2,tt3").knows_any(&|title: &String| {
        asked.borrow_mut().push(title.clone());
        title == "tt2"
    }));
    assert_eq!(asked.into_inner(), strings(&["tt1", "tt2"]));
}
