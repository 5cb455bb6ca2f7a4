use audio_splitter::naming::chunk_output_name;
use audio_splitter::naming::part_output_name;
use audio_splitter::naming::transcript_output_path;

#[test]
fn chunk_names_are_zero_padded_in_plan_order() {
    assert_eq!(chunk_output_name("episode", 0, ".mp3"), "episode_chunk000.mp3");
    assert_eq!(chunk_output_name("episode", 7, ".mp3"), "episode_chunk007.mp3");
    assert_eq!(chunk_output_name("episode", 42, ".mp3"), "episode_chunk042.mp3");
    assert_eq!(chunk_output_name("episode", 123, ".mp3"), "episode_chunk123.mp3");
    assert_eq!(chunk_output_name("episode", 1234, ".mp3"), "episode_chunk1234.mp3");
}

#[test]
fn chunk_names_work_without_an_extension() {
    assert_eq!(chunk_output_name("episode", 3, ""), "episode_chunk003");
}

#[test]
fn part_names_count_from_one() {
    assert_eq!(part_output_name("episode_chunk000", 0, ".mp3"), "episode_chunk000_part001.mp3");
    assert_eq!(part_output_name("episode_chunk000", 1, ".mp3"), "episode_chunk000_part002.mp3");
    assert_eq!(part_output_name("episode_chunk000", 99, ".mp3"), "episode_chunk000_part100.mp3");
}

#[test]
fn transcript_name_appends_txt() {
    assert_eq!(transcript_output_path("episode_chunk000.mp3"), "episode_chunk000.mp3.txt");
    assert_eq!(transcript_output_path("episode"), "episode.txt");
}
