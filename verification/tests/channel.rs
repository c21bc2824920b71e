use pub_sub_learning::channel::{
    ensure_channel, BusConfig, CreateOutcome, ProvisionError, CHANNEL_MODE, INPUT_PIPE_PATH,
    OUTPUT_FILE_PATH,
};
use pub_sub_learning::message::EmptyContentPolicy;
use pub_sub_learning::publisher::PublishStep;
use pub_sub_learning::subscriber::{Phase, ReadOutcome, ReadPlan};

#[test]
fn a_new_channel_is_ready() {
    assert_eq!(ensure_channel(CreateOutcome::Created), Ok(()));
}

#[test]
fn an_existing_channel_is_ready() {
    assert_eq!(ensure_channel(CreateOutcome::AlreadyExists { is_fifo: true }), Ok(()));
    assert_eq!(ensure_channel(CreateOutcome::AlreadyExists { is_fifo: true }), Ok(()));
}

#[test]
fn another_file_in_the_channels_place_is_fatal() {
    assert_eq!(
        ensure_channel(CreateOutcome::AlreadyExists { is_fifo: false }),
        Err(ProvisionError::PathCollision)
    );
}

#[test]
fn a_failed_creation_is_fatal() {
    assert_eq!(ensure_channel(CreateOutcome::Failed), Err(ProvisionError::CreateFailed));
}

#[test]
fn the_owner_has_every_permission_on_the_channel() {
    assert_eq!(CHANNEL_MODE, 0o700);
}

#[test]
fn standard_settings() {
    let config = BusConfig::standard();
    assert_eq!(config.input_path, "/tmp/pub-in-fifo");
    assert_eq!(config.output_path, "/tmp/pub-out-file");
    assert_eq!(config.input_path, INPUT_PIPE_PATH);
    assert_eq!(config.output_path, OUTPUT_FILE_PATH);
    assert_eq!(config.poll_interval_ms, 300);
    assert!(!config.generate_synthetic);
    assert_eq!(config.empty_content, EmptyContentPolicy::DigestEmpty);
    assert_eq!(config.message_limit, Some(1_000_000_000));
}

#[test]
fn roles_take_their_settings_from_the_config() {
    let mut config = BusConfig::standard();
    config.poll_interval_ms = 25;
    config.generate_synthetic = true;
    config.message_limit = Some(0);

    let mut subscriber = config.subscriber();
    assert_eq!(subscriber.phase(), Phase::AwaitingData);
    assert_eq!(subscriber.on_read(ReadOutcome::WouldBlock), ReadPlan::Sleep { millis: 25 });

    assert_eq!(config.publisher().next_step(), PublishStep::Stop);
    config.message_limit = None;
    assert_eq!(config.publisher().next_step(), PublishStep::Generate);
    config.generate_synthetic = false;
    assert_eq!(config.publisher().next_step(), PublishStep::ReadLine);
}
