use chip8::bus::Bus;
use chip8::cpu::Cpu;
use chip8::keypad::Keypad;
use chip8::ram::Ram;
use chip8::scheduler::Scheduler;
use chip8::screen::Screen;

fn cpu_with_timers(delay: u8, sound: u8) -> Cpu {
    let mut cpu = Cpu::new();
    let mut ram = Ram::new();
    let mut screen = Screen::new();
    let keypad = Keypad::new();
    // 6Xnn / FX15 / FX18 set the timers through the instruction set.
    ram.write_bytes(0x200, &[0x60, delay, 0xF0, 0x15, 0x60, sound, 0xF0, 0x18]).unwrap();
    for _ in 0..4 {
        cpu.run_instruction(&mut ram, &mut screen, &keypad).unwrap();
    }
    cpu
}

#[test]
fn one_simulated_second_gives_exactly_sixty_ticks() {
    // 1000 iterations of 1 ms at a 1000 Hz instruction rate: one simulated
    // second, so a delay timer of 60 reaches exactly 0.
    let mut cpu = cpu_with_timers(60, 0);
    let mut scheduler = Scheduler::new();
    let mut total_ticks: u64 = 0;
    for _ in 0..1000 {
        let (ticks, _) = scheduler.run_timers(&mut cpu, 1_000_000);
        total_ticks += ticks;
    }
    assert_eq!(total_ticks, 60);
    assert_eq!(cpu.delay_timer(), 0);
}

#[test]
fn tick_count_is_independent_of_iteration_slicing() {
    // The same simulated second in four large gulps.
    let mut cpu = cpu_with_timers(60, 0);
    let mut scheduler = Scheduler::new();
    let mut total_ticks: u64 = 0;
    for _ in 0..4 {
        let (ticks, _) = scheduler.run_timers(&mut cpu, 250_000_000);
        total_ticks += ticks;
    }
    assert_eq!(total_ticks, 60);
    assert_eq!(cpu.delay_timer(), 0);
}

#[test]
fn timers_stop_at_zero() {
    let mut cpu = cpu_with_timers(2, 1);
    let mut scheduler = Scheduler::new();
    // Ten sixtieths of a second: both timers hit their floor and stay there.
    let (ticks, sound_active) = scheduler.run_timers(&mut cpu, 170_000_000);
    assert_eq!(ticks, 10);
    assert_eq!(cpu.delay_timer(), 0);
    assert_eq!(cpu.sound_timer(), 0);
    assert!(!sound_active);
}

#[test]
fn stalled_host_delta_is_capped() {
    // A 10-second stall counts as 3000 ms of catch-up, not 10 s.
    let mut cpu = cpu_with_timers(255, 0);
    let mut scheduler = Scheduler::new();
    let (ticks, _) = scheduler.run_timers(&mut cpu, 10_000_000_000);
    assert_eq!(ticks, 3_000_000_000 / 16_666_666);
    assert_eq!(cpu.delay_timer(), 255 - ticks as u8);
}

#[test]
fn no_tick_before_a_whole_interval() {
    let mut cpu = cpu_with_timers(60, 0);
    let mut scheduler = Scheduler::new();
    let (ticks, _) = scheduler.run_timers(&mut cpu, 16_000_000);
    assert_eq!(ticks, 0);
    assert_eq!(cpu.delay_timer(), 60);
    // The fraction is kept: the next small delta completes the interval.
    let (ticks, _) = scheduler.run_timers(&mut cpu, 700_000);
    assert_eq!(ticks, 1);
    assert_eq!(cpu.delay_timer(), 59);
}

#[test]
fn sound_state_follows_sound_timer() {
    let mut cpu = cpu_with_timers(0, 2);
    let mut scheduler = Scheduler::new();
    let (ticks, sound_active) = scheduler.run_timers(&mut cpu, 16_666_666);
    assert_eq!(ticks, 1);
    assert_eq!(cpu.sound_timer(), 1);
    assert!(sound_active);
    let (_, sound_active) = scheduler.run_timers(&mut cpu, 16_666_666);
    assert_eq!(cpu.sound_timer(), 0);
    assert!(!sound_active);
}

#[test]
fn cpu_update_timers_decrements_with_floor() {
    let mut cpu = cpu_with_timers(1, 2);
    let sound_active = cpu.update_timers();
    assert_eq!(cpu.delay_timer(), 0);
    assert_eq!(cpu.sound_timer(), 1);
    assert!(sound_active);
    let sound_active = cpu.update_timers();
    assert_eq!(cpu.delay_timer(), 0);
    assert_eq!(cpu.sound_timer(), 0);
    assert!(!sound_active);
}

#[test]
fn bus_update_timers_decrements_with_floor() {
    let mut bus = Bus::new();
    bus.delay_timer = 2;
    bus.sound_timer = 1;
    bus.update_timers();
    assert_eq!(bus.delay_timer, 1);
    assert_eq!(bus.sound_timer, 0);
    bus.update_timers();
    assert_eq!(bus.delay_timer, 0);
    assert_eq!(bus.sound_timer, 0);
}
